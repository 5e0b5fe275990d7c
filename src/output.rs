//! Normalisation of rendered text, and the guard against overwriting files
//! that were not generated.

use vstd::prelude::*;

use crate::text::{contains, occurs_in};

verus! {

/// Whether `c` is white space in Unicode's sense, as `char::is_whitespace` has it.
pub open spec fn is_white(c: char) -> bool {
    ('\u{9}' <= c && c <= '\u{d}') || c == ' ' || c == '\u{85}' || c == '\u{a0}' || c
        == '\u{1680}' || ('\u{2000}' <= c && c <= '\u{200a}') || c == '\u{2028}' || c
        == '\u{2029}' || c == '\u{202f}' || c == '\u{205f}' || c == '\u{3000}'
}

/// `s` without its trailing white space.
pub open spec fn trim_end(s: Seq<char>) -> Seq<char>
    decreases s.len(),
{
    if s.len() > 0 && is_white(s.last()) {
        trim_end(s.drop_last())
    } else {
        s
    }
}

/// The pieces of `s` between line feeds, empty ones included: one more than
/// there are line feeds.
pub open spec fn segments(s: Seq<char>) -> Seq<Seq<char>>
    decreases s.len(),
{
    if s.len() == 0 {
        seq![Seq::empty()]
    } else {
        let p = segments(s.drop_last());
        if s.last() == '\n' {
            p.push(Seq::empty())
        } else {
            p.update(p.len() - 1, p.last().push(s.last()))
        }
    }
}

/// Whether `line` holds nothing but white space.
pub open spec fn is_blank(line: Seq<char>) -> bool {
    trim_end(line).len() == 0
}

/// `ls` without the blank lines at its end.
pub open spec fn drop_blank_tail(ls: Seq<Seq<char>>) -> Seq<Seq<char>>
    decreases ls.len(),
{
    if ls.len() > 0 && is_blank(ls.last()) {
        drop_blank_tail(ls.drop_last())
    } else {
        ls
    }
}

/// Each of `ls` without trailing white space, each followed by a line feed.
pub open spec fn trimmed_lines(ls: Seq<Seq<char>>) -> Seq<char>
    decreases ls.len(),
{
    if ls.len() == 0 {
        Seq::empty()
    } else {
        trimmed_lines(ls.drop_last()) + trim_end(ls.last()) + seq!['\n']
    }
}

/// Rendered text as it is written out: the lines of `s` (the pieces between
/// line feeds), trailing white space trimmed from each, blank lines at the
/// end dropped, and exactly one line feed after the last line; text with
/// nothing but white space becomes a single line feed.
pub open spec fn normalized(s: Seq<char>) -> Seq<char> {
    let ls = drop_blank_tail(segments(s));
    if ls.len() == 0 {
        seq!['\n']
    } else {
        trimmed_lines(ls)
    }
}

/// `n` line feeds.
pub open spec fn line_feeds(n: nat) -> Seq<char> {
    Seq::new(n, |i: int| '\n')
}

/// `trimmed_lines(ls)` without the line feeds at its end.
pub open spec fn trimmed_core(ls: Seq<Seq<char>>) -> Seq<char> {
    let d = drop_blank_tail(ls);
    if d.len() == 0 {
        Seq::empty()
    } else {
        trimmed_lines(d.drop_last()) + trim_end(d.last())
    }
}

proof fn lemma_trim_end_last(s: Seq<char>)
    ensures
        trim_end(s).len() > 0 ==> !is_white(trim_end(s).last()),
    decreases s.len(),
{
    if s.len() > 0 && is_white(s.last()) {
        lemma_trim_end_last(s.drop_last());
    }
}

proof fn lemma_drop_blank_tail_prefix(ls: Seq<Seq<char>>)
    ensures
        drop_blank_tail(ls).len() <= ls.len(),
        drop_blank_tail(ls) == ls.subrange(0, drop_blank_tail(ls).len() as int),
        drop_blank_tail(ls).len() > 0 ==> !is_blank(drop_blank_tail(ls).last()),
    decreases ls.len(),
{
    if ls.len() > 0 && is_blank(ls.last()) {
        lemma_drop_blank_tail_prefix(ls.drop_last());
        assert(ls.drop_last().subrange(0, drop_blank_tail(ls).len() as int) =~= ls.subrange(
            0,
            drop_blank_tail(ls).len() as int,
        ));
    } else {
        assert(ls.subrange(0, ls.len() as int) =~= ls);
    }
}

/// `trimmed_lines(ls)` is its core followed by line feeds, and the core does
/// not end in one; the core with one line feed is the normalised text.
proof fn lemma_trimmed_lines_split(ls: Seq<Seq<char>>)
    ensures
        exists|m: nat| trimmed_lines(ls) == trimmed_core(ls) + #[trigger] line_feeds(m),
        trimmed_core(ls).len() == 0 || trimmed_core(ls).last() != '\n',
        trimmed_core(ls) + seq!['\n'] == (if drop_blank_tail(ls).len() == 0 {
            seq!['\n']
        } else {
            trimmed_lines(drop_blank_tail(ls))
        }),
    decreases ls.len(),
{
    let d = drop_blank_tail(ls);
    if ls.len() == 0 {
        assert(trimmed_lines(ls) =~= trimmed_core(ls) + line_feeds(0));
        assert(Seq::<char>::empty() + seq!['\n'] =~= seq!['\n']);
    } else if is_blank(ls.last()) {
        lemma_trimmed_lines_split(ls.drop_last());
        let m = choose|m: nat| trimmed_lines(ls.drop_last()) == trimmed_core(ls.drop_last())
            + #[trigger] line_feeds(m);
        assert(trimmed_lines(ls) =~= trimmed_core(ls) + line_feeds(m + 1));
    } else {
        lemma_trim_end_last(ls.last());
        assert(trimmed_lines(ls) =~= trimmed_core(ls) + line_feeds(1));
    }
}

proof fn lemma_segments_nonempty(s: Seq<char>)
    ensures
        segments(s).len() >= 1,
    decreases s.len(),
{
    if s.len() > 0 {
        lemma_segments_nonempty(s.drop_last());
    }
}

/// Whether `s` holds no line feed.
pub open spec fn single_line(s: Seq<char>) -> bool {
    forall|i: int| 0 <= i < s.len() ==> s[i] != '\n'
}

/// Each of `ls` without its trailing white space.
pub open spec fn trim_each(ls: Seq<Seq<char>>) -> Seq<Seq<char>> {
    ls.map_values(|l: Seq<char>| trim_end(l))
}

proof fn lemma_trim_end_prefix(s: Seq<char>)
    ensures
        trim_end(s).len() <= s.len(),
        trim_end(s) == s.subrange(0, trim_end(s).len() as int),
        trim_end(trim_end(s)) == trim_end(s),
    decreases s.len(),
{
    if s.len() > 0 && is_white(s.last()) {
        lemma_trim_end_prefix(s.drop_last());
        assert(trim_end(s) == s.drop_last().subrange(0, trim_end(s).len() as int));
        assert(s.drop_last().subrange(0, trim_end(s).len() as int) =~= s.subrange(
            0,
            trim_end(s).len() as int,
        ));
    } else {
        assert(s.subrange(0, s.len() as int) =~= s);
    }
}

proof fn lemma_segments_single_line(s: Seq<char>)
    ensures
        forall|k: int| 0 <= k < segments(s).len() ==> single_line(#[trigger] segments(s)[k]),
    decreases s.len(),
{
    lemma_segments_nonempty(s);
    if s.len() > 0 {
        lemma_segments_single_line(s.drop_last());
        lemma_segments_nonempty(s.drop_last());
        let p = segments(s.drop_last());
        if s.last() != '\n' {
            assert forall|k: int| 0 <= k < segments(s).len() implies single_line(
                #[trigger] segments(s)[k],
            ) by {
                if k == p.len() - 1 {
                    assert(single_line(p[k]));
                    assert(segments(s)[k] == p[k].push(s.last()));
                }
            }
        }
    }
}

proof fn lemma_segments_append_line(p: Seq<char>, t: Seq<char>)
    requires
        single_line(t),
    ensures
        segments(p + t) == segments(p).drop_last().push(segments(p).last() + t),
    decreases t.len(),
{
    lemma_segments_nonempty(p);
    if t.len() == 0 {
        assert(p + t =~= p);
        assert(segments(p).last() + t =~= segments(p).last());
        assert(segments(p).drop_last().push(segments(p).last()) =~= segments(p));
    } else {
        let t0 = t.drop_last();
        lemma_segments_append_line(p, t0);
        assert((p + t).drop_last() =~= p + t0);
        assert((p + t).last() == t.last());
        let q = segments(p + t0);
        assert(q.last() == segments(p).last() + t0);
        assert(segments(p).last() + t0 + seq![t.last()] =~= segments(p).last() + t);
        assert(t[t.len() - 1] != '\n');
        assert(q.last().push(t.last()) =~= segments(p).last() + t);
        assert(q.update(q.len() - 1, q.last().push(t.last())) =~= segments(p).drop_last().push(
            segments(p).last() + t,
        ));
    }
}

proof fn lemma_segments_of_trimmed_lines(ls: Seq<Seq<char>>)
    requires
        forall|k: int| 0 <= k < ls.len() ==> single_line(#[trigger] ls[k]),
    ensures
        segments(trimmed_lines(ls)) == trim_each(ls).push(Seq::empty()),
    decreases ls.len(),
{
    if ls.len() == 0 {
        assert(trim_each(ls).push(Seq::<char>::empty()) =~= seq![Seq::<char>::empty()]);
    } else {
        let rest = ls.drop_last();
        let t = trim_end(ls.last());
        lemma_segments_of_trimmed_lines(rest);
        lemma_trim_end_prefix(ls.last());
        assert(single_line(ls[ls.len() - 1]));
        assert(single_line(t)) by {
            assert forall|i: int| 0 <= i < t.len() implies t[i] != '\n' by {
                assert(t[i] == ls.last().subrange(0, t.len() as int)[i]);
            }
        }
        let a = trimmed_lines(rest);
        lemma_segments_append_line(a, t);
        assert(segments(a).last() + t =~= t);
        assert(segments(a).drop_last() =~= trim_each(rest));
        let b = a + t + seq!['\n'];
        assert(trimmed_lines(ls) == b);
        assert(b.drop_last() =~= a + t);
        assert(trim_each(ls) =~= trim_each(rest).push(t));
    }
}

proof fn lemma_trimmed_lines_of_trimmed(ls: Seq<Seq<char>>)
    ensures
        trimmed_lines(trim_each(ls)) == trimmed_lines(ls),
    decreases ls.len(),
{
    if ls.len() > 0 {
        lemma_trimmed_lines_of_trimmed(ls.drop_last());
        lemma_trim_end_prefix(ls.last());
        assert(trim_each(ls).drop_last() =~= trim_each(ls.drop_last()));
    }
}

/// Normalised text is left as it is by a second normalisation: a file that
/// was written once renders to the same bytes when it passes through again.
pub proof fn lemma_normalized_idempotent(s: Seq<char>)
    ensures
        normalized(normalized(s)) == normalized(s),
{
    lemma_segments_nonempty(s);
    lemma_segments_single_line(s);
    let ls = segments(s);
    let d = drop_blank_tail(ls);
    lemma_drop_blank_tail_prefix(ls);
    assert forall|k: int| 0 <= k < d.len() implies single_line(#[trigger] d[k]) by {
        assert(d[k] == ls[k]);
    }
    let e = Seq::<char>::empty();
    assert(trim_end(e) == e);
    if d.len() == 0 {
        let nl = seq!['\n'];
        assert(nl.drop_last() =~= e);
        assert(segments(e) == seq![e]);
        assert(nl.last() == '\n');
        let two = seq![e, e];
        assert(segments(nl) =~= two);
        assert(two.drop_last() =~= seq![e]);
        assert(seq![e].drop_last() =~= Seq::<Seq<char>>::empty());
        assert(drop_blank_tail(Seq::<Seq<char>>::empty()) == Seq::<Seq<char>>::empty());
        assert(drop_blank_tail(seq![e]) == Seq::<Seq<char>>::empty());
        assert(drop_blank_tail(two) == Seq::<Seq<char>>::empty());
    } else {
        lemma_segments_of_trimmed_lines(d);
        let n = trimmed_lines(d);
        let t = trim_each(d);
        lemma_trim_end_prefix(d.last());
        assert(t.last() == trim_end(d.last()));
        assert(!is_blank(t.last()));
        assert(segments(n) == t.push(e));
        assert(t.push(e).drop_last() =~= t);
        assert(drop_blank_tail(t.push(e)) == drop_blank_tail(t));
        assert(drop_blank_tail(t) == t);
        lemma_trimmed_lines_of_trimmed(d);
    }
}

/// Whether `c` is white space in Unicode's sense.
fn is_white_char(c: char) -> (r: bool)
    ensures
        r == is_white(c),
{
    ('\u{9}' <= c && c <= '\u{d}') || c == ' ' || c == '\u{85}' || c == '\u{a0}' || c
        == '\u{1680}' || ('\u{2000}' <= c && c <= '\u{200a}') || c == '\u{2028}' || c
        == '\u{2029}' || c == '\u{202f}' || c == '\u{205f}' || c == '\u{3000}'
}

/// The length of `s` once its trailing white space is cut.
fn trimmed_len(s: &str) -> (k: usize)
    ensures
        k <= s@.len(),
        s@.subrange(0, k as int) == trim_end(s@),
{
    let mut k = s.unicode_len();
    assert(s@.subrange(0, k as int) =~= s@);
    while k > 0
        invariant
            k <= s@.len(),
            trim_end(s@.subrange(0, k as int)) == trim_end(s@),
        decreases k,
    {
        let c = s.get_char(k - 1);
        if is_white_char(c) {
            assert(s@.subrange(0, k as int).drop_last() =~= s@.subrange(0, k - 1));
            k = k - 1;
        } else {
            return k;
        }
    }
    k
}

/// Normalises rendered text: trims trailing white space from every line and
/// ends the text with exactly one line feed.
pub fn normalize_rendered(rendered: &str) -> (r: String)
    ensures
        r@ == normalized(rendered@),
{
    let n = rendered.unicode_len();
    let mut out = String::new();
    let mut start: usize = 0;
    let mut i: usize = 0;
    assert(rendered@.subrange(0, 0) =~= Seq::<char>::empty());
    while i < n
        invariant
            n == rendered@.len(),
            start <= i <= n,
            segments(rendered@.subrange(0, i as int)).last() == rendered@.subrange(
                start as int,
                i as int,
            ),
            out@ == trimmed_lines(segments(rendered@.subrange(0, i as int)).drop_last()),
        decreases n - i,
    {
        let ghost pre = rendered@.subrange(0, i as int);
        let ghost next = rendered@.subrange(0, i + 1);
        assert(next.drop_last() =~= pre);
        proof {
            lemma_segments_nonempty(pre);
        }
        if rendered.get_char(i) == '\n' {
            let line = rendered.substring_char(start, i);
            let k = trimmed_len(line);
            out.append(line.substring_char(0, k));
            out.append("\n");
            proof {
                reveal_strlit("\n");
                let p = segments(pre);
                assert(segments(next) == p.push(Seq::empty()));
                assert(segments(next).drop_last() =~= p);
                assert(p =~= p.drop_last().push(p.last()));
            }
            start = i + 1;
            assert(rendered@.subrange(start as int, start as int) =~= Seq::<char>::empty());
        } else {
            proof {
                let p = segments(pre);
                assert(segments(next).drop_last() =~= p.drop_last());
                assert(rendered@.subrange(start as int, i + 1) =~= rendered@.subrange(
                    start as int,
                    i as int,
                ).push(rendered@[i as int]));
            }
        }
        i = i + 1;
    }
    assert(rendered@.subrange(0, n as int) =~= rendered@);
    proof {
        lemma_segments_nonempty(rendered@);
    }
    let line = rendered.substring_char(start, n);
    let k = trimmed_len(line);
    out.append(line.substring_char(0, k));
    out.append("\n");
    let ghost ls = segments(rendered@);
    proof {
        reveal_strlit("\n");
        assert(ls =~= ls.drop_last().push(ls.last()));
        assert(out@ == trimmed_lines(ls));
        lemma_trimmed_lines_split(ls);
    }
    let ghost core = trimmed_core(ls);
    let len = out.as_str().unicode_len();
    let mut end: usize = len;
    while end > 0 && out.as_str().get_char(end - 1) == '\n'
        invariant
            len == out@.len(),
            core.len() <= end <= len,
            core.len() == 0 || core.last() != '\n',
            exists|m: nat| out@ == core + #[trigger] line_feeds(m),
        decreases end,
    {
        proof {
            if end - 1 < core.len() {
                let m = choose|m: nat| out@ == core + #[trigger] line_feeds(m);
                assert(out@[end - 1] == core[end - 1]);
            }
        }
        end = end - 1;
    }
    proof {
        let m = choose|m: nat| out@ == core + #[trigger] line_feeds(m);
        if end > core.len() {
            assert(out@[end - 1] == line_feeds(m)[end - 1 - core.len()]);
        }
        assert(out@.subrange(0, end as int) =~= core);
    }
    let mut r = String::from_str(out.as_str().substring_char(0, end));
    r.append("\n");
    r
}

/// The text whose presence on a line marks a file as generated.
pub const GENERATED_MARKER: &'static str = "@generated by crate2nix";

/// Whether `line` carries the generation marker.
pub open spec fn is_marked(line: Seq<char>) -> bool {
    occurs_in(line, GENERATED_MARKER@)
}

/// Whether `line` carries the generation marker.
pub fn has_generated_marker(line: &str) -> (r: bool)
    ensures
        r == is_marked(line@),
{
    contains(line, GENERATED_MARKER)
}

/// Whether some line of `ls` carries the generation marker.
pub open spec fn any_marked(ls: Seq<String>) -> bool {
    exists|i: int| 0 <= i < ls.len() && #[trigger] is_marked(ls[i]@)
}

/// A refusal to overwrite a file that does not carry the generation marker.
#[derive(Debug, PartialEq, Eq)]
pub struct NotGeneratedError {
    /// The file that was left alone.
    pub path: String,
}

impl NotGeneratedError {
    /// The refusal as one line of text.
    pub fn message(&self) -> (r: String)
        ensures
            r@ == "Cowardly refusing to overwrite "@ + self.path@ + " without generated marker."@,
    {
        let mut r = String::from_str("Cowardly refusing to overwrite ");
        r.append(self.path.as_str());
        r.append(" without generated marker.");
        r
    }
}

/// What the scan of an existing file does after reading one more line.
#[derive(Debug, PartialEq, Eq)]
pub enum GuardStep {
    /// The marker was found: the file may be overwritten.
    Allow,
    /// No marker yet: read the next line.
    ReadNext,
    /// The file ended without a marker: it is left alone.
    Refuse(NotGeneratedError),
}

/// One step of the line-by-line scan of the existing file at `path`: `line`
/// is the line just read, or `None` at the end of the file.
pub fn guard_step(path: &str, line: Option<&str>) -> (r: GuardStep)
    ensures
        match line {
            Some(l) => if is_marked(l@) {
                r is Allow
            } else {
                r is ReadNext
            },
            None => r matches GuardStep::Refuse(e) && e.path@ == path@,
        },
{
    match line {
        Some(l) => if has_generated_marker(l) {
            GuardStep::Allow
        } else {
            GuardStep::ReadNext
        },
        None => GuardStep::Refuse(NotGeneratedError { path: String::from_str(path) }),
    }
}

/// Decides whether the file at `path` may be overwritten, given its lines, or
/// `None` where no file is there: a missing file may always be written, an
/// existing one only where some line carries the marker.
pub fn check_generated(path: &str, existing: Option<&Vec<String>>) -> (r: Result<(), NotGeneratedError>)
    ensures
        match existing {
            None => r is Ok,
            Some(ls) => r is Ok <==> any_marked(ls@),
        },
        r matches Err(e) ==> e.path@ == path@,
{
    match existing {
        None => Ok(()),
        Some(ls) => {
            let mut i: usize = 0;
            while i <= ls.len()
                invariant
                    existing == Some(ls),
                    0 <= i <= ls.len() + 1,
                    forall|j: int| 0 <= j < i && j < ls.len() ==> !is_marked(#[trigger] ls@[j]@),
                decreases ls.len() + 1 - i,
            {
                let line = if i < ls.len() {
                    Some(ls[i].as_str())
                } else {
                    None
                };
                match guard_step(path, line) {
                    GuardStep::Allow => {
                        assert(is_marked(ls@[i as int]@));
                        return Ok(());
                    },
                    GuardStep::Refuse(e) => {
                        return Err(e);
                    },
                    GuardStep::ReadNext => {},
                }
                i = i + 1;
            }
            Err(NotGeneratedError { path: String::from_str(path) })
        },
    }
}

} // verus!
