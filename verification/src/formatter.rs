use vstd::prelude::*;

verus! {

/// Builds indented text line by line: each added line is prefixed by the
/// current indentation and followed by a newline.
pub struct Formatter {
    pub indent: String,
    pub code: String,
}

/// One indentation step: four spaces.
pub open spec fn indent_step() -> Seq<char> {
    seq![' ', ' ', ' ', ' ']
}

impl Formatter {
    /// An empty formatter: no text, no indentation.
    pub fn new() -> (r: Formatter)
        ensures
            r.code@ == Seq::<char>::empty(),
            r.indent@ == Seq::<char>::empty(),
    {
        Formatter { indent: String::new(), code: String::new() }
    }

    /// Appends the current indentation, the line, and a newline.
    pub fn add_line(&mut self, line: &str)
        ensures
            final(self).code@ == old(self).code@ + old(self).indent@ + line@ + seq!['\n'],
            final(self).indent@ == old(self).indent@,
    {
        let ghost pre = self.code@;
        let indent_copy = clone_str(&self.indent);
        self.code.append(indent_copy.as_str());
        self.code.append(line);
        proof {
            reveal_strlit("\n");
        }
        self.code.append("\n");
        proof {
            assert(self.code@ =~= pre + old(self).indent@ + line@ + seq!['\n']);
        }
    }

    /// Deepens the indentation by one step.
    pub fn indent(&mut self)
        ensures
            final(self).indent@ == old(self).indent@ + indent_step(),
            final(self).code@ == old(self).code@,
    {
        proof {
            reveal_strlit("    ");
        }
        self.indent.append("    ");
        proof {
            assert(("    ")@ =~= indent_step());
        }
    }

    /// Shallows the indentation by one step; does nothing when the
    /// indentation is shallower than one step.
    pub fn unindent(&mut self)
        ensures
            final(self).indent@ == (if old(self).indent@.len() >= 4 {
                old(self).indent@.take(old(self).indent@.len() - 4)
            } else {
                old(self).indent@
            }),
            final(self).code@ == old(self).code@,
    {
        let n = self.indent.as_str().unicode_len();
        if n >= 4 {
            let shorter = self.indent.as_str().substring_char(0, n - 4);
            let shorter_string = String::from_str(shorter);
            self.indent = shorter_string;
            proof {
                assert(self.indent@ =~= old(self).indent@.take(old(self).indent@.len() - 4));
            }
        }
    }

    /// The text built so far.
    pub fn get_code(self) -> (r: String)
        ensures
            r@ == self.code@,
    {
        self.code
    }
}

/// A copy of a string, character for character.
pub fn clone_str(s: &String) -> (r: String)
    ensures
        r@ == s@,
{
    s.clone()
}

} // verus!
