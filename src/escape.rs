//! Quoting of arbitrary text as a nix string literal.

use vstd::prelude::*;

verus! {

/// Whether the character at `i` must be preceded by a backslash: a backslash,
/// a double quote, or a dollar sign that opens an interpolation `${`.
pub open spec fn needs_escape(s: Seq<char>, i: int) -> bool {
    s[i] == '\\' || s[i] == '"' || (s[i] == '$' && i + 1 < s.len() && s[i + 1] == '{')
}

/// What the character at `i` becomes inside the literal.
pub open spec fn escaped_char(s: Seq<char>, i: int) -> Seq<char> {
    if needs_escape(s, i) {
        seq!['\\', s[i]]
    } else {
        seq![s[i]]
    }
}

/// The escaped form of the characters `a..b` of `s`.
pub open spec fn escaped_range(s: Seq<char>, a: int, b: int) -> Seq<char>
    decreases b - a,
{
    if b <= a {
        Seq::empty()
    } else {
        escaped_range(s, a, b - 1) + escaped_char(s, b - 1)
    }
}

/// The nix string literal that denotes `s`.
pub open spec fn nix_string(s: Seq<char>) -> Seq<char> {
    seq!['"'] + escaped_range(s, 0, s.len() as int) + seq!['"']
}

/// The character that nix reads for the escape sequence `\c`.
pub open spec fn unescape_char(c: char) -> char {
    if c == 'n' {
        '\n'
    } else if c == 'r' {
        '\r'
    } else if c == 't' {
        '\t'
    } else {
        c
    }
}

/// The text that the body of a nix double-quoted string denotes, or `None`
/// where the body is not a plain literal (a bare quote ends it early, `${`
/// starts an interpolation, a trailing backslash escapes the closing quote).
pub open spec fn nix_string_body_value(b: Seq<char>) -> Option<Seq<char>>
    decreases b.len(),
{
    if b.len() == 0 {
        Some(Seq::empty())
    } else if b[0] == '\\' {
        if b.len() < 2 {
            None
        } else {
            match nix_string_body_value(b.subrange(2, b.len() as int)) {
                Some(rest) => Some(seq![unescape_char(b[1])] + rest),
                None => None,
            }
        }
    } else if b[0] == '"' || (b[0] == '$' && b.len() > 1 && b[1] == '{') {
        None
    } else {
        match nix_string_body_value(b.subrange(1, b.len() as int)) {
            Some(rest) => Some(seq![b[0]] + rest),
            None => None,
        }
    }
}

/// The text that a nix double-quoted string literal denotes, if it is one.
pub open spec fn nix_string_value(lit: Seq<char>) -> Option<Seq<char>> {
    if lit.len() >= 2 && lit[0] == '"' && lit[lit.len() - 1] == '"' {
        nix_string_body_value(lit.subrange(1, lit.len() - 1))
    } else {
        None
    }
}

proof fn lemma_escaped_range_front(s: Seq<char>, a: int, b: int)
    requires
        a < b,
    ensures
        escaped_range(s, a, b) == escaped_char(s, a) + escaped_range(s, a + 1, b),
    decreases b - a,
{
    if a + 1 < b {
        lemma_escaped_range_front(s, a, b - 1);
        assert(escaped_range(s, a, b) == escaped_char(s, a) + escaped_range(s, a + 1, b - 1)
            + escaped_char(s, b - 1));
    } else {
        assert(escaped_range(s, a, a) == Seq::<char>::empty());
        assert(escaped_range(s, a + 1, b) == Seq::<char>::empty());
    }
}

proof fn lemma_escaped_suffix_value(s: Seq<char>, a: int)
    requires
        0 <= a <= s.len(),
    ensures
        nix_string_body_value(escaped_range(s, a, s.len() as int)) == Some(
            s.subrange(a, s.len() as int),
        ),
    decreases s.len() - a,
{
    let n = s.len() as int;
    if a == n {
        assert(s.subrange(a, n) =~= Seq::<char>::empty());
    } else {
        lemma_escaped_range_front(s, a, n);
        lemma_escaped_suffix_value(s, a + 1);
        let rest = escaped_range(s, a + 1, n);
        let b = escaped_range(s, a, n);
        if a + 1 < n {
            lemma_escaped_range_front(s, a + 1, n);
        } else {
            assert(rest == Seq::<char>::empty());
        }
        if needs_escape(s, a) {
            assert(b == seq!['\\', s[a]] + rest);
            assert(b.subrange(2, b.len() as int) =~= rest);
        } else {
            assert(b == seq![s[a]] + rest);
            assert(b.subrange(1, b.len() as int) =~= rest);
        }
        assert(s.subrange(a, n) =~= seq![s[a]] + s.subrange(a + 1, n));
    }
}

/// Reading back the literal that `escape_nix_string` produces gives the
/// text it was given, whatever that holds.
pub proof fn lemma_escape_round_trip(s: Seq<char>)
    ensures
        nix_string_value(nix_string(s)) == Some(s),
{
    let lit = nix_string(s);
    let body = escaped_range(s, 0, s.len() as int);
    lemma_escaped_suffix_value(s, 0);
    assert(lit.subrange(1, lit.len() - 1) =~= body);
    assert(s.subrange(0, s.len() as int) =~= s);
}

/// Escapes a string as a nix string.
pub fn escape_nix_string(raw_string: &str) -> (r: String)
    ensures
        r@ == nix_string(raw_string@),
{
    let n = raw_string.unicode_len();
    let mut ret = String::from_str("\"");
    proof {
        reveal_strlit("\"");
    }
    let mut i: usize = 0;
    while i < n
        invariant
            n == raw_string@.len(),
            0 <= i <= n,
            ret@ == seq!['"'] + escaped_range(raw_string@, 0, i as int),
        decreases n - i,
    {
        let c = raw_string.get_char(i);
        let before_brace = c == '$' && i + 1 < n && raw_string.get_char(i + 1) == '{';
        if c == '\\' || c == '"' || before_brace {
            ret.append("\\");
            proof {
                reveal_strlit("\\");
            }
        }
        ret.append(raw_string.substring_char(i, i + 1));
        assert(raw_string@.subrange(i as int, i + 1) =~= seq![c]);
        i = i + 1;
    }
    ret.append("\"");
    ret
}

} // verus!
