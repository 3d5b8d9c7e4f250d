//! The one-line text prompt used when naming a save: an editable character
//! buffer with a cursor, driven by discrete key signals.

use vstd::prelude::*;

verus! {

/// Whether `c` is an ASCII character: the only ones the prompt accepts.
pub open spec fn is_ascii_char(c: char) -> bool {
    (c as int) < 128
}

/// A discrete key signal for the prompt, already stripped of device detail.
#[derive(Debug, Clone, Copy, PartialEq, Eq, Structural)]
pub enum PromptKey {
    Escape,
    Accept,
    Character(char),
    Backspace,
    Left,
    Right,
    Other,
}

/// What one key did to the prompt: editing goes on, or the prompt closed,
/// cancelled or submitted.
#[derive(Debug, Clone, Copy, PartialEq, Eq, Structural)]
pub enum PromptStep {
    Editing,
    Cancelled,
    Submitted,
}

/// The prompt's editable state: the entered characters, the cursor position
/// within them, and the display width the cursor is clamped to.
#[derive(Debug)]
pub struct Prompt {
    pub text: Vec<char>,
    pub cursor: usize,
    pub max_width: usize,
}

impl Prompt {
    /// The cursor stays inside the text and the display width.
    pub open spec fn wf(self) -> bool {
        &&& self.cursor <= self.text@.len()
        &&& self.max_width >= 1
    }

    /// An empty prompt of the given display width.
    pub fn new(max_width: usize) -> (r: Prompt)
        requires
            max_width >= 1,
        ensures
            r.wf(),
            r.text@.len() == 0,
            r.cursor == 0,
            r.max_width == max_width,
    {
        Prompt { text: Vec::new(), cursor: 0, max_width }
    }

    /// Apply one key: printable ASCII characters are inserted at the
    /// cursor, backspace removes the character before it, the arrow keys
    /// move it — clamped to the text and the display width, never past
    /// either. Escape cancels and accept submits, both leaving the text
    /// as it stands.
    pub fn input(&mut self, key: PromptKey) -> (r: PromptStep)
        requires
            old(self).wf(),
            old(self).text@.len() < usize::MAX,
        ensures
            final(self).wf(),
            final(self).max_width == old(self).max_width,
            match key {
                PromptKey::Escape => r == PromptStep::Cancelled && final(self).text@ == old(
                    self,
                ).text@ && final(self).cursor == old(self).cursor,
                PromptKey::Accept => r == PromptStep::Submitted && final(self).text@ == old(
                    self,
                ).text@ && final(self).cursor == old(self).cursor,
                PromptKey::Character(c) => r == PromptStep::Editing && (if is_ascii_char(c) {
                    final(self).text@ == old(self).text@.insert(old(self).cursor as int, c)
                        && final(self).cursor == old(self).cursor + 1
                } else {
                    final(self).text@ == old(self).text@ && final(self).cursor == old(self).cursor
                }),
                PromptKey::Backspace => r == PromptStep::Editing && (if old(self).cursor > 0 {
                    final(self).text@ == old(self).text@.remove(old(self).cursor - 1)
                        && final(self).cursor == old(self).cursor - 1
                } else {
                    final(self).text@ == old(self).text@ && final(self).cursor == old(self).cursor
                }),
                PromptKey::Right => r == PromptStep::Editing && final(self).text@ == old(
                    self,
                ).text@ && final(self).cursor as int == vstd::math::min(
                    vstd::math::min(
                        old(self).cursor + 1,
                        old(self).max_width - 1,
                    ),
                    old(self).text@.len() as int,
                ),
                PromptKey::Left => r == PromptStep::Editing && final(self).text@ == old(
                    self,
                ).text@ && final(self).cursor == (if old(self).cursor > 0 {
                    (old(self).cursor - 1) as usize
                } else {
                    0usize
                }),
                PromptKey::Other => r == PromptStep::Editing && final(self).text@ == old(
                    self,
                ).text@ && final(self).cursor == old(self).cursor,
            },
    {
        match key {
            PromptKey::Escape => PromptStep::Cancelled,
            PromptKey::Accept => PromptStep::Submitted,
            PromptKey::Character(c) => {
                if (c as u32) < 128 {
                    self.text.insert(self.cursor, c);
                    self.cursor += 1;
                }
                PromptStep::Editing
            },
            PromptKey::Backspace => {
                if self.cursor > 0 {
                    self.text.remove(self.cursor - 1);
                    self.cursor -= 1;
                }
                PromptStep::Editing
            },
            PromptKey::Right => {
                let mut c = self.cursor + 1;
                if c > self.max_width - 1 {
                    c = self.max_width - 1;
                }
                if c > self.text.len() {
                    c = self.text.len();
                }
                self.cursor = c;
                PromptStep::Editing
            },
            PromptKey::Left => {
                if self.cursor > 0 {
                    self.cursor -= 1;
                }
                PromptStep::Editing
            },
            PromptKey::Other => PromptStep::Editing,
        }
    }
}

} // verus!
