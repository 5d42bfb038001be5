//! Newline-delimited text framing: the byte-at-a-time normalization
//! that turns a raw stream into clean protocol lines.
//!
//! Fed one byte at a time, the framer strips leading whitespace,
//! collapses runs of whitespace into single spaces, drops bytes that
//! are neither printable nor whitespace, finishes a line on a newline
//! after stripping trailing spaces, and silently drops empty lines.
//! The reading and writing of the underlying stream stays with the
//! caller.

use crate::text::push_char;
use vstd::prelude::*;

verus! {

/// Printable ASCII, excluding the space.
pub open spec fn is_graphic_byte(b: u8) -> bool {
    33 <= b <= 126
}

/// What `u8::is_ascii_whitespace` accepts: space, tab, newline, form
/// feed, carriage return.
pub open spec fn is_ws_byte(b: u8) -> bool {
    b == 32 || b == 9 || b == 10 || b == 12 || b == 13
}

/// A partial line under construction: printable characters and single
/// separating spaces, never starting with a space.
pub open spec fn partial_line_wf(s: Seq<char>) -> bool {
    &&& forall|i: int|
        0 <= i < s.len() ==> (is_graphic_byte(#[trigger] s[i] as u8) && s[i] as u32 <= 126) || s[i]
            == ' '
    &&& s.len() > 0 ==> s[0] != ' '
    &&& forall|i: int| 0 < i < s.len() ==> !((#[trigger] s[i]) == ' ' && s[i - 1] == ' ')
}

/// A finished line: as a partial line, but nonempty and not ending with
/// a space.
pub open spec fn normalized_line(s: Seq<char>) -> bool {
    &&& partial_line_wf(s)
    &&& s.len() > 0
    &&& s.last() != ' '
}

/// The line with trailing spaces removed.
pub open spec fn strip_trailing_spaces(s: Seq<char>) -> Seq<char>
    decreases s.len(),
{
    if s.len() > 0 && s.last() == ' ' {
        strip_trailing_spaces(s.drop_last())
    } else {
        s
    }
}

/// One byte's effect on the partial line: the new partial line and the
/// finished line, if the byte completed one.
pub open spec fn spec_feed(line: Seq<char>, b: u8) -> (Seq<char>, Option<Seq<char>>) {
    if is_ws_byte(b) {
        if line.len() == 0 {
            (line, None)
        } else if b == 10 {
            (Seq::empty(), Some(strip_trailing_spaces(line)))
        } else if line.last() == ' ' {
            (line, None)
        } else {
            (line.push(' '), None)
        }
    } else if is_graphic_byte(b) {
        (line.push(b as char), None)
    } else {
        (line, None)
    }
}

/// Builds protocol lines from single bytes.
pub struct LineFramer {
    line: Vec<char>,
}

impl View for LineFramer {
    type V = Seq<char>;

    closed spec fn view(&self) -> Seq<char> {
        self.line@
    }
}

impl LineFramer {
    /// An empty framer.
    pub fn new() -> (r: LineFramer)
        ensures
            r@ =~= Seq::<char>::empty(),
            partial_line_wf(r@),
    {
        LineFramer { line: Vec::new() }
    }

    /// Feed one byte of the stream; a completed line comes back once
    /// its terminating newline arrives.
    pub fn push_byte(&mut self, b: u8) -> (r: Option<String>)
        requires
            partial_line_wf(old(self)@),
        ensures
            partial_line_wf(final(self)@),
            final(self)@ == spec_feed(old(self)@, b).0,
            opt_line_view(r) == spec_feed(old(self)@, b).1,
            r is Some ==> normalized_line(r->0@),
    {
        proof {
            lemma_strip_trailing_wf(old(self)@);
        }
        if is_ws_byte_exec(b) {
            if self.line.len() == 0 {
                None
            } else if b == 10 {
                if self.line[self.line.len() - 1] == ' ' {
                    // A well-formed partial line has at most one
                    // trailing space.
                    self.line.pop();
                    proof {
                        assert(old(self)@.drop_last().len() > 0);
                        assert(old(self)@.drop_last().last() != ' ');
                        assert(self.line@ =~= old(self)@.drop_last());
                        assert(strip_trailing_spaces(old(self)@) == strip_trailing_spaces(
                            old(self)@.drop_last(),
                        ));
                        assert(strip_trailing_spaces(old(self)@.drop_last()) == old(
                            self,
                        )@.drop_last());
                    }
                }
                proof {
                    assert(self.line@ == strip_trailing_spaces(old(self)@));
                }
                let done = chars_to_string(&self.line);
                self.line = Vec::new();
                proof {
                    assert(self.line@ =~= Seq::<char>::empty());
                }
                Some(done)
            } else {
                if self.line[self.line.len() - 1] != ' ' {
                    self.line.push(' ');
                }
                None
            }
        } else if 33 <= b && b <= 126 {
            self.line.push(b as char);
            proof {
                assert(final(self)@ =~= old(self)@.push(b as char));
            }
            None
        } else {
            None
        }
    }
}

/// View of an optional finished line.
pub open spec fn opt_line_view(r: Option<String>) -> Option<Seq<char>> {
    match r {
        Some(line) => Some(line@),
        None => None,
    }
}

/// Stripping trailing spaces from a well-formed nonempty partial line
/// removes at most one space and leaves a normalized line.
proof fn lemma_strip_trailing_wf(s: Seq<char>)
    requires
        partial_line_wf(s),
    ensures
        s.len() > 0 && s.last() == ' ' ==> strip_trailing_spaces(s) == s.drop_last(),
        s.len() > 0 && s.last() != ' ' ==> strip_trailing_spaces(s) == s,
        s.len() > 0 ==> normalized_line(strip_trailing_spaces(s)),
{
    if s.len() > 0 && s.last() == ' ' {
        // The head cannot be a space, so the line has at least two
        // characters, and the one before the space is not a space.
        assert(s[0] != ' ');
        assert(s.len() >= 2);
        assert(s.last() == s[s.len() - 1]);
        assert(s[s.len() - 2] != ' ');
        let t = s.drop_last();
        assert(t.last() != ' ');
        assert(strip_trailing_spaces(t) == t);
        assert(partial_line_wf(t)) by {
            assert(forall|i: int| 0 <= i < t.len() ==> #[trigger] t[i] == s[i]);
        }
    }
}

/// Executable test for the whitespace bytes.
fn is_ws_byte_exec(b: u8) -> (r: bool)
    ensures
        r == is_ws_byte(b),
{
    b == 32 || b == 9 || b == 10 || b == 12 || b == 13
}

/// The characters of the buffer as a string.
fn chars_to_string(v: &Vec<char>) -> (r: String)
    ensures
        r@ == v@,
{
    let mut s = String::new();
    let mut i: usize = 0;
    while i < v.len()
        invariant
            0 <= i <= v@.len(),
            s@ =~= v@.subrange(0, i as int),
        decreases v@.len() - i,
    {
        push_char(&mut s, v[i]);
        proof {
            assert(s@ =~= v@.subrange(0, i + 1 as int));
        }
        i = i + 1;
    }
    proof {
        assert(s@ =~= v@);
    }
    s
}

} // verus!
