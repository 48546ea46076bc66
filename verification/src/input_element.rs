//! The one-line text box behind the filter and search inputs: a character
//! buffer plus a cursor that sits on the character just typed, or at -1
//! when the cursor is before the first character.

use vstd::prelude::*;

verus! {

/// Relies on `String::push`: appends one character at the end.
#[verifier::external_body]
fn push_char(s: &mut String, c: char)
    ensures
        final(s)@ == old(s)@.push(c),
{
    s.push(c)
}

/// An editable line of text with a cursor. The cursor names the position
/// of the character it sits on: `-1` before the first character, up to
/// `len - 1` on the last.
pub struct InputTextElement {
    chars: Vec<char>,
    cursor_position: i64,
}

impl InputTextElement {
    /// The characters of the buffer.
    pub closed spec fn text_view(&self) -> Seq<char> {
        self.chars@
    }

    /// The cursor as a mathematical integer.
    pub closed spec fn cursor_view(&self) -> int {
        self.cursor_position as int
    }

    /// The cursor stays on a character or just before the text, and the
    /// buffer is short enough for the cursor arithmetic.
    pub open spec fn wf(&self) -> bool {
        &&& -1 <= self.cursor_view()
        &&& self.cursor_view() < self.text_view().len()
        &&& self.text_view().len() < 0x7fff_ffff_ffff_ffff
    }

    /// A box holding `text`, with the cursor on its last character.
    pub fn new(text: String) -> (r: InputTextElement)
        requires
            text@.len() < 0x7fff_ffff_ffff_ffff,
        ensures
            r.wf(),
            r.text_view() == text@,
            r.cursor_view() == text@.len() - 1,
    {
        let n = text.as_str().unicode_len();
        let mut chars: Vec<char> = Vec::new();
        let mut i: usize = 0;
        while i < n
            invariant
                0 <= i <= n,
                n == text@.len(),
                chars@ == text@.take(i as int),
            decreases n - i,
        {
            let c = text.as_str().get_char(i);
            proof {
                assert(text@.take(i + 1) =~= text@.take(i as int).push(text@[i as int]));
            }
            chars.push(c);
            i = i + 1;
        }
        proof {
            assert(text@.take(n as int) =~= text@);
        }
        InputTextElement { cursor_position: (n as i64) - 1, chars }
    }

    /// The text as a string.
    pub fn text(&self) -> (r: String)
        ensures
            r@ == self.text_view(),
    {
        let mut r = String::new();
        let n = self.chars.len();
        let mut i: usize = 0;
        while i < n
            invariant
                0 <= i <= n,
                n == self.chars@.len(),
                r@ == self.chars@.take(i as int),
            decreases n - i,
        {
            proof {
                assert(self.chars@.take(i + 1) =~= self.chars@.take(i as int).push(
                    self.chars@[i as int],
                ));
            }
            push_char(&mut r, self.chars[i]);
            i = i + 1;
        }
        proof {
            assert(self.chars@.take(n as int) =~= self.chars@);
        }
        r
    }

    /// The cursor position, `-1` when it sits before the first character.
    pub fn cursor_position(&self) -> (r: i64)
        ensures
            r == self.cursor_view(),
    {
        self.cursor_position
    }

    /// Inserts `ch` after the cursor and moves the cursor onto it.
    pub fn add_char(&mut self, ch: char)
        requires
            old(self).wf(),
            old(self).text_view().len() + 1 < 0x7fff_ffff_ffff_ffff,
        ensures
            final(self).wf(),
            final(self).text_view() == old(self).text_view().insert(
                old(self).cursor_view() + 1,
                ch,
            ),
            final(self).cursor_view() == old(self).cursor_view() + 1,
    {
        self.cursor_position = self.cursor_position + 1;
        self.chars.insert(self.cursor_position as usize, ch);
    }

    /// Removes the character under the cursor (backspace); a no-op when the
    /// cursor is before the text.
    pub fn remove_char(&mut self)
        requires
            old(self).wf(),
        ensures
            final(self).wf(),
            old(self).cursor_view() == -1 ==> *final(self) == *old(self),
            old(self).cursor_view() >= 0 ==> final(self).text_view() == old(self).text_view().remove(old(self).cursor_view()) && final(self).cursor_view() == old(self).cursor_view() - 1,
    {
        if self.cursor_position == -1 {
            return ;
        }
        let n = self.chars.len();
        proof {
            assert(0 <= self.cursor_position && self.cursor_position < n as i64);
        }
        self.chars.remove(self.cursor_position as usize);
        self.cursor_position = self.cursor_position - 1;
    }

    /// Removes the character after the cursor (delete); a no-op when the
    /// cursor is on the last character.
    pub fn delete_char(&mut self)
        requires
            old(self).wf(),
        ensures
            final(self).wf(),
            old(self).cursor_view() == old(self).text_view().len() - 1 ==> *final(self) == *old(self),
            old(self).cursor_view() < old(self).text_view().len() - 1 ==> final(self).text_view()
                == old(self).text_view().remove(old(self).cursor_view() + 1) && final(self).cursor_view() == old(self).cursor_view(),
    {
        if self.cursor_position == (self.chars.len() as i64) - 1 {
            return ;
        }
        let n = self.chars.len();
        proof {
            assert(0 <= self.cursor_position + 1 && self.cursor_position + 1 < n as i64);
        }
        self.chars.remove((self.cursor_position + 1) as usize);
    }

    /// Moves the cursor one character left, stopping before the text.
    pub fn cursor_left(&mut self)
        requires
            old(self).wf(),
        ensures
            final(self).wf(),
            final(self).text_view() == old(self).text_view(),
            final(self).cursor_view() == if old(self).cursor_view() - 1 >= -1 {
                old(self).cursor_view() - 1
            } else {
                -1int
            },
    {
        if self.cursor_position - 1 >= -1 {
            self.cursor_position = self.cursor_position - 1;
        } else {
            self.cursor_position = -1;
        }
    }

    /// Moves the cursor one character right, stopping on the last character.
    pub fn cursor_right(&mut self)
        requires
            old(self).wf(),
        ensures
            final(self).wf(),
            final(self).text_view() == old(self).text_view(),
            final(self).cursor_view() == if old(self).cursor_view() + 1 <= old(self).text_view().len() - 1 {
                old(self).cursor_view() + 1
            } else {
                old(self).text_view().len() - 1
            },
    {
        let limit = (self.chars.len() as i64) - 1;
        if self.cursor_position + 1 <= limit {
            self.cursor_position = self.cursor_position + 1;
        } else {
            self.cursor_position = limit;
        }
    }

    /// Puts the cursor before the first character.
    pub fn cursor_to_start(&mut self)
        requires
            old(self).wf(),
        ensures
            final(self).wf(),
            final(self).text_view() == old(self).text_view(),
            final(self).cursor_view() == -1,
    {
        self.cursor_position = -1;
    }

    /// Puts the cursor on the last character.
    pub fn cursor_to_end(&mut self)
        requires
            old(self).wf(),
        ensures
            final(self).wf(),
            final(self).text_view() == old(self).text_view(),
            final(self).cursor_view() == old(self).text_view().len() - 1,
    {
        self.cursor_position = (self.chars.len() as i64) - 1;
    }

    /// Empties the text and puts the cursor before it.
    pub fn clear(&mut self)
        ensures
            final(self).wf(),
            final(self).text_view() == Seq::<char>::empty(),
            final(self).cursor_view() == -1,
    {
        self.chars.clear();
        self.cursor_position = -1;
    }
}

} // verus!
