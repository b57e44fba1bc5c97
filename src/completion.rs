//! Name completion and hints for an interactive shell: the names assigned so
//! far are offered for the word under the cursor.
use vstd::prelude::*;

use vstd::string::StringSliceAdditionalSpecFns;

use crate::text::chars_of;

verus! {

/// The characters after the last space of `line`: the word being typed.
pub open spec fn last_word(line: Seq<char>) -> Seq<char>
    decreases line.len(),
{
    if line.len() == 0 {
        line
    } else if line.last() == ' ' {
        Seq::empty()
    } else {
        last_word(line.drop_last()).push(line.last())
    }
}

/// What completes `word` to `h`: the rest of `h` after it.
pub open spec fn rest_after(h: Seq<char>, word: Seq<char>) -> Seq<char> {
    h.subrange(word.len() as int, h.len() as int)
}

/// For each hint that starts with `word`, in order, the rest of it.
pub open spec fn completions(hints: Seq<Seq<char>>, word: Seq<char>) -> Seq<Seq<char>>
    decreases hints.len(),
{
    if hints.len() == 0 {
        Seq::empty()
    } else {
        let rest = completions(hints.drop_last(), word);
        let h = hints.last();
        if word.is_prefix_of(h) {
            rest.push(rest_after(h, word))
        } else {
            rest
        }
    }
}

/// The first hint that starts with `line`, if any.
pub open spec fn first_match(hints: Seq<Seq<char>>, line: Seq<char>) -> Option<Seq<char>>
    decreases hints.len(),
{
    if hints.len() == 0 {
        None
    } else if line.is_prefix_of(hints[0]) {
        Some(hints[0])
    } else {
        first_match(hints.drop_first(), line)
    }
}

/// Whether the cursor, a byte offset, stands at the end of a line that is not
/// empty: the only place where completion is offered.
pub open spec fn at_end(line: &str, pos: usize) -> bool {
    line.spec_bytes().len() as usize > 0 && pos >= line.spec_bytes().len() as usize
}

/// A candidate for completion or a hint: the text to show and insert.
#[derive(Debug, PartialEq, Eq, Hash)]
pub struct CommandHint(String);

impl View for CommandHint {
    type V = Seq<char>;

    closed spec fn view(&self) -> Seq<char> {
        self.0@
    }
}

/// The texts of a sequence of hints.
pub open spec fn hint_texts(v: Seq<CommandHint>) -> Seq<Seq<char>> {
    v.map_values(|h: CommandHint| h@)
}

impl CommandHint {
    /// A hint with the given text.
    pub fn new(text: &str) -> (r: CommandHint)
        ensures
            r@ == text@,
    {
        CommandHint(String::from_str(text))
    }

    /// The text of the hint.
    pub fn display(&self) -> (r: &str)
        ensures
            r@ == self@,
    {
        self.0.as_str()
    }

    /// The hint without its first `strip_chars` characters.
    pub fn suffix(&self, strip_chars: usize) -> (r: CommandHint)
        requires
            strip_chars <= self@.len(),
        ensures
            r@ == self@.subrange(strip_chars as int, self@.len() as int),
    {
        let n = self.0.as_str().unicode_len();
        CommandHint(String::from_str(self.0.as_str().substring_char(strip_chars, n)))
    }
}

/// Whether `w` is a prefix of `h`.
fn starts_with(h: &Vec<char>, w: &Vec<char>) -> (r: bool)
    ensures
        r == w@.is_prefix_of(h@),
{
    if w.len() > h.len() {
        return false;
    }
    let mut i: usize = 0;
    while i < w.len()
        invariant
            w.len() <= h.len(),
            i <= w.len(),
            forall|j: int| 0 <= j < i ==> w@[j] == h@[j],
        decreases w.len() - i,
    {
        if w[i] != h[i] {
            return false;
        }
        i = i + 1;
    }
    true
}

/// The word being typed at the end of `line`.
fn word_at_end(line: &str) -> (r: Vec<char>)
    ensures
        r@ == last_word(line@),
{
    let cs = chars_of(line);
    let n = cs.len();
    let mut k: usize = n;
    assert(line@.take(n as int) =~= line@);
    assert(line@.subrange(n as int, n as int) =~= Seq::<char>::empty());
    assert(line@ + Seq::<char>::empty() =~= line@);
    while k > 0 && cs[k - 1] != ' '
        invariant
            k <= n,
            cs@ == line@,
            n == cs.len(),
            last_word(line@) == last_word(line@.take(k as int)) + line@.subrange(k as int, n as int),
        decreases k,
    {
        proof {
            let s = line@.take(k as int);
            assert(s.drop_last() =~= line@.take(k - 1));
            assert(line@.subrange(k - 1, n as int) =~= seq![s.last()] + line@.subrange(
                k as int,
                n as int,
            ));
            assert(last_word(s) == last_word(s.drop_last()).push(s.last()));
            assert(last_word(s.drop_last()).push(s.last()) + line@.subrange(k as int, n as int)
                =~= last_word(s.drop_last()) + line@.subrange(k - 1, n as int));
        }
        k = k - 1;
    }
    let mut w: Vec<char> = Vec::new();
    let mut i = k;
    while i < n
        invariant
            k <= i <= n,
            cs@ == line@,
            n == cs.len(),
            w@ == line@.subrange(k as int, i as int),
        decreases n - i,
    {
        w.push(cs[i]);
        assert(w@ =~= line@.subrange(k as int, i + 1));
        i = i + 1;
    }
    proof {
        assert(line@.take(n as int) =~= line@);
        let s = line@.take(k as int);
        if k > 0 {
            assert(s.last() == ' ');
        }
        assert(last_word(s) =~= Seq::<char>::empty());
        assert(last_word(line@) =~= line@.subrange(k as int, n as int));
    }
    w
}

/// For each hint that starts with the word at the end of `line`, the rest of
/// it; nothing unless the cursor is at the end of the line.
fn complete_from(hints: &Vec<CommandHint>, line: &str, pos: usize) -> (r: Vec<CommandHint>)
    ensures
        hint_texts(r@) == if at_end(line, pos) {
            completions(hint_texts(hints@), last_word(line@))
        } else {
            Seq::empty()
        },
{
    let mut res: Vec<CommandHint> = Vec::new();
    if line.len() == 0 || pos < line.len() {
        assert(hint_texts(res@) =~= Seq::<Seq<char>>::empty());
        return res;
    }
    let word = word_at_end(line);
    let ghost hv = hint_texts(hints@);
    let mut i: usize = 0;
    while i < hints.len()
        invariant
            i <= hints.len(),
            hv == hint_texts(hints@),
            word@ == last_word(line@),
            hint_texts(res@) == completions(hv.take(i as int), word@),
        decreases hints.len() - i,
    {
        let h = &hints[i];
        let hc = chars_of(h.display());
        assert(hv.take(i + 1).drop_last() =~= hv.take(i as int));
        assert(hv[i as int] == h@);
        if starts_with(&hc, &word) {
            let c = h.suffix(word.len());
            let ghost before = res@;
            res.push(c);
            assert(hint_texts(res@) =~= hint_texts(before).push(c@));
        }
        i = i + 1;
    }
    assert(hv.take(hints.len() as int) =~= hv);
    res
}

/// Adds `text` to the end of `hints` unless it holds it already.
fn add_unique(hints: &mut Vec<CommandHint>, text: &str)
    ensures
        hint_texts(old(hints)@).contains(text@) ==> final(hints)@ == old(hints)@,
        !hint_texts(old(hints)@).contains(text@) ==> hint_texts(final(hints)@) == hint_texts(
            old(hints)@,
        ).push(text@),
{
    let tc = chars_of(text);
    let mut i: usize = 0;
    while i < hints.len()
        invariant
            i <= hints.len(),
            tc@ == text@,
            forall|j: int| 0 <= j < i ==> hints@[j]@ != text@,
        decreases hints.len() - i,
    {
        let hc = chars_of(hints[i].display());
        if hc.len() == tc.len() && starts_with(&hc, &tc) {
            assert(hints@[i as int]@ =~= text@);
            assert(hint_texts(hints@)[i as int] == text@);
            return;
        }
        i = i + 1;
    }
    let ghost before = hints@;
    hints.push(CommandHint::new(text));
    assert(hint_texts(hints@) =~= hint_texts(before).push(text@));
}

/// The names known to the shell, for completion of the word being typed and
/// syntax highlighting.
pub struct Helper {
    hints: Vec<CommandHint>,
}

impl View for Helper {
    type V = Seq<Seq<char>>;

    closed spec fn view(&self) -> Seq<Seq<char>> {
        hint_texts(self.hints@)
    }
}

impl Helper {
    /// A helper that knows no names.
    pub fn new() -> (r: Helper)
        ensures
            r@ == Seq::<Seq<char>>::empty(),
    {
        let r = Helper { hints: Vec::new() };
        assert(r@ =~= Seq::<Seq<char>>::empty());
        r
    }

    /// Adds a name to be offered for completion.
    pub fn add(&mut self, text: &str)
        ensures
            final(self)@ == old(self)@.push(text@),
    {
        let ghost before = self.hints@;
        self.hints.push(CommandHint::new(text));
        assert(hint_texts(self.hints@) =~= hint_texts(before).push(text@));
    }

    /// The completions of the word at the end of `line`, each the rest of a
    /// known name that starts with it, returned with the cursor position.
    pub fn complete(&self, line: &str, pos: usize) -> (r: (usize, Vec<CommandHint>))
        ensures
            r.0 == pos,
            hint_texts(r.1@) == if at_end(line, pos) {
                completions(self@, last_word(line@))
            } else {
                Seq::empty()
            },
    {
        (pos, complete_from(&self.hints, line, pos))
    }
}

/// Like [`Helper`], but each name is kept once.
pub struct AutoCompleter {
    hints: Vec<CommandHint>,
}

impl View for AutoCompleter {
    type V = Seq<Seq<char>>;

    closed spec fn view(&self) -> Seq<Seq<char>> {
        hint_texts(self.hints@)
    }
}

impl AutoCompleter {
    /// A completer that knows no names.
    pub fn new() -> (r: AutoCompleter)
        ensures
            r@ == Seq::<Seq<char>>::empty(),
    {
        let r = AutoCompleter { hints: Vec::new() };
        assert(r@ =~= Seq::<Seq<char>>::empty());
        r
    }

    /// Adds a name to be offered for completion, unless it is known already.
    pub fn add(&mut self, text: &str)
        ensures
            old(self)@.contains(text@) ==> final(self)@ == old(self)@,
            !old(self)@.contains(text@) ==> final(self)@ == old(self)@.push(text@),
    {
        add_unique(&mut self.hints, text);
    }

    /// The completions of the word at the end of `line`, each the rest of a
    /// known name that starts with it, returned with the cursor position.
    pub fn complete(&self, line: &str, pos: usize) -> (r: (usize, Vec<CommandHint>))
        ensures
            r.0 == pos,
            hint_texts(r.1@) == if at_end(line, pos) {
                completions(self@, last_word(line@))
            } else {
                Seq::empty()
            },
    {
        (pos, complete_from(&self.hints, line, pos))
    }
}

/// Offers, as the user types, the rest of the first known name that starts
/// with the whole line.
pub struct LangHinter {
    hints: Vec<CommandHint>,
}

impl View for LangHinter {
    type V = Seq<Seq<char>>;

    closed spec fn view(&self) -> Seq<Seq<char>> {
        hint_texts(self.hints@)
    }
}

impl LangHinter {
    /// A hinter that knows no names.
    pub fn new() -> (r: LangHinter)
        ensures
            r@ == Seq::<Seq<char>>::empty(),
    {
        let r = LangHinter { hints: Vec::new() };
        assert(r@ =~= Seq::<Seq<char>>::empty());
        r
    }

    /// Adds a name to be offered as a hint, unless it is known already.
    pub fn add(&mut self, text: &str)
        ensures
            old(self)@.contains(text@) ==> final(self)@ == old(self)@,
            !old(self)@.contains(text@) ==> final(self)@ == old(self)@.push(text@),
    {
        add_unique(&mut self.hints, text);
    }

    /// The rest of the first known name that starts with `line`, if the cursor
    /// is at the end of the line and there is such a name.
    pub fn hint(&self, line: &str, pos: usize) -> (r: Option<CommandHint>)
        ensures
            !at_end(line, pos) ==> r is None,
            at_end(line, pos) ==> match first_match(self@, line@) {
                Some(h) => r matches Some(c) && c@ == rest_after(h, line@),
                None => r is None,
            },
    {
        if line.len() == 0 || pos < line.len() {
            return None;
        }
        let lc = chars_of(line);
        let ghost hv = hint_texts(self.hints@);
        let mut i: usize = 0;
        assert(hv.subrange(0, hv.len() as int) =~= hv);
        while i < self.hints.len()
            invariant
                i <= self.hints.len(),
                hv == hint_texts(self.hints@),
                lc@ == line@,
                at_end(line, pos),
                first_match(hv, line@) == first_match(hv.subrange(i as int, hv.len() as int), line@),
            decreases self.hints.len() - i,
        {
            let h = &self.hints[i];
            let hc = chars_of(h.display());
            let ghost rest = hv.subrange(i as int, hv.len() as int);
            assert(rest[0] == h@);
            assert(rest.drop_first() =~= hv.subrange(i + 1, hv.len() as int));
            if starts_with(&hc, &lc) {
                return Some(h.suffix(lc.len()));
            }
            i = i + 1;
        }
        None
    }
}

} // verus!
