//! Syntax highlighting for an interactive shell: the characters that have a
//! meaning of their own are shown in color.
use colored::Colorize;
use vstd::prelude::*;

use crate::text::chars_of;

verus! {

/// The text shown for each highlighted character.
pub struct Palette {
    /// For `λ` and `\`.
    pub lambda: String,
    /// For `=`.
    pub equal: String,
    /// For `(`.
    pub left: String,
    /// For `)`.
    pub right: String,
    /// For `#`.
    pub hash: String,
}

/// The text shown for the character `c`.
pub open spec fn piece(p: &Palette, c: char) -> Seq<char> {
    if c == 'λ' || c == '\\' {
        p.lambda@
    } else if c == '=' {
        p.equal@
    } else if c == '(' {
        p.left@
    } else if c == ')' {
        p.right@
    } else if c == '#' {
        p.hash@
    } else {
        seq![c]
    }
}

/// The text shown for the line: each character replaced by its piece.
pub open spec fn painted(p: &Palette, line: Seq<char>) -> Seq<char>
    decreases line.len(),
{
    if line.len() == 0 {
        Seq::empty()
    } else {
        painted(p, line.drop_last()) + piece(p, line.last())
    }
}

/// Relies on colored's `Colorize::blue` for `&str` and the `Display` of
/// `ColoredString`: the text in blue, or as it is when coloring is off.
#[verifier::external_body]
fn in_blue(s: &str) -> String {
    s.blue().to_string()
}

/// Relies on colored's `Colorize::magenta` for `&str` and the `Display` of
/// `ColoredString`: the text in magenta, or as it is when coloring is off.
#[verifier::external_body]
fn in_magenta(s: &str) -> String {
    s.magenta().to_string()
}

/// Relies on colored's `Colorize::cyan` for `&str` and the `Display` of
/// `ColoredString`: the text in cyan, or as it is when coloring is off.
#[verifier::external_body]
fn in_cyan(s: &str) -> String {
    s.cyan().to_string()
}

impl Palette {
    /// The shell's colors: lambdas and `=` in blue, parentheses in magenta,
    /// `#` in cyan.
    pub fn colored() -> (r: Palette) {
        Palette {
            lambda: in_blue("λ"),
            equal: in_blue("="),
            left: in_magenta("("),
            right: in_magenta(")"),
            hash: in_cyan("#"),
        }
    }

    /// Highlights the line: every character that has a meaning of its own is
    /// replaced by its piece of the palette.
    pub fn highlight(&self, line: &str) -> (r: String)
        ensures
            r@ == painted(self, line@),
    {
        let cs = chars_of(line);
        let mut r = String::new();
        let mut i: usize = 0;
        while i < cs.len()
            invariant
                cs@ == line@,
                i <= cs.len(),
                r@ == painted(self, line@.take(i as int)),
            decreases cs.len() - i,
        {
            let c = cs[i];
            if c == 'λ' || c == '\\' {
                r.append(self.lambda.as_str());
            } else if c == '=' {
                r.append(self.equal.as_str());
            } else if c == '(' {
                r.append(self.left.as_str());
            } else if c == ')' {
                r.append(self.right.as_str());
            } else if c == '#' {
                r.append(self.hash.as_str());
            } else {
                let one = line.substring_char(i, i + 1);
                assert(one@ =~= seq![c]);
                r.append(one);
            }
            assert(line@.take(i + 1).drop_last() =~= line@.take(i as int));
            i = i + 1;
        }
        assert(line@.take(cs.len() as int) =~= line@);
        r
    }
}

} // verus!
