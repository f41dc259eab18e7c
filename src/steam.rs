//! Reading Steam's library list and app manifest, line by line: fields are
//! the pieces of a line between double quotes.
use vstd::prelude::*;
use crate::names::texts_equal;

verus! {

/// The position of the first double quote in `s`, or its length if there is none.
pub open spec fn first_quote(s: Seq<char>) -> int
    decreases s.len(),
{
    if s.len() == 0 {
        0
    } else if s[0] == '"' {
        0
    } else {
        1 + first_quote(s.drop_first())
    }
}

/// Piece `k` (from zero) of `s` split at every double quote, if `s` has that many.
pub open spec fn quote_field(s: Seq<char>, k: nat) -> Option<Seq<char>>
    decreases s.len(),
{
    let p = first_quote(s);
    if k == 0 {
        Some(s.subrange(0, p))
    } else if p < 0 || p >= s.len() {
        None
    } else {
        quote_field(s.subrange(p + 1, s.len() as int), (k - 1) as nat)
    }
}

/// `s` with each pair of backslashes, read from the left, made one.
pub open spec fn collapse_backslashes(s: Seq<char>) -> Seq<char>
    decreases s.len(),
{
    if s.len() < 2 {
        s
    } else if s[0] == '\\' && s[1] == '\\' {
        seq!['\\'] + collapse_backslashes(s.subrange(2, s.len() as int))
    } else {
        seq![s[0]] + collapse_backslashes(s.drop_first())
    }
}

/// `pat` occurs in `s`.
pub open spec fn contains_text(s: Seq<char>, pat: Seq<char>) -> bool {
    exists|i: int| 0 <= i && i + pat.len() <= s.len() && #[trigger] s.subrange(i, i + pat.len()) == pat
}

proof fn lemma_first_quote(s: Seq<char>, p: int)
    requires
        0 <= p <= s.len(),
        p == s.len() || s[p] == '"',
        forall|j: int| 0 <= j < p ==> s[j] != '"',
    ensures
        first_quote(s) == p,
        0 <= first_quote(s) <= s.len(),
    decreases s.len(),
{
    if s.len() > 0 && p > 0 {
        let t = s.drop_first();
        assert forall|j: int| 0 <= j < p - 1 implies t[j] != '"' by {
            assert(t[j] == s[j + 1]);
        }
        lemma_first_quote(t, p - 1);
    }
}

fn first_quote_in(s: &str) -> (r: usize)
    ensures
        r as int == first_quote(s@),
        r <= s@.len(),
{
    let n = s.unicode_len();
    let mut i: usize = 0;
    while i < n
        invariant
            n == s@.len(),
            i <= n,
            forall|j: int| 0 <= j < i ==> s@[j] != '"',
        decreases n - i,
    {
        if s.get_char(i) == '"' {
            proof {
                lemma_first_quote(s@, i as int);
            }
            return i;
        }
        i = i + 1;
    }
    proof {
        lemma_first_quote(s@, n as int);
    }
    n
}

/// Piece `k` of `line` split at every double quote; `None` where the line has
/// fewer than `k` quotes.
pub fn quoted_field(line: &str, k: usize) -> (r: Option<String>)
    ensures
        r matches Some(f) ==> quote_field(line@, k as nat) == Some(f@),
        r is None ==> quote_field(line@, k as nat) is None,
    decreases k,
{
    let p = first_quote_in(line);
    let n = line.unicode_len();
    if k == 0 {
        Some(String::from_str(line.substring_char(0, p)))
    } else if p >= n {
        None
    } else {
        quoted_field(line.substring_char(p + 1, n), k - 1)
    }
}

/// `s` with each pair of backslashes, read from the left, made one.
pub fn collapse_doubled_backslashes(s: &str) -> (r: String)
    ensures
        r@ == collapse_backslashes(s@),
{
    proof {
        reveal_strlit("\\");
        assert("\\"@ =~= seq!['\\']);
    }
    let n = s.unicode_len();
    let mut out = String::new();
    let mut i: usize = 0;
    assert(s@.subrange(0, n as int) =~= s@);
    assert(out@ + collapse_backslashes(s@) =~= collapse_backslashes(s@));
    while i < n
        invariant
            n == s@.len(),
            i <= n,
            out@ + collapse_backslashes(s@.subrange(i as int, n as int)) == collapse_backslashes(s@),
        decreases n - i,
    {
        let ghost rest = s@.subrange(i as int, n as int);
        if i + 1 < n && s.get_char(i) == '\\' && s.get_char(i + 1) == '\\' {
            assert(rest.subrange(2, rest.len() as int) =~= s@.subrange(i + 2, n as int));
            assert(rest[0] == '\\' && rest[1] == '\\');
            assert(collapse_backslashes(rest) == seq!['\\'] + collapse_backslashes(s@.subrange(i + 2, n as int)));
            let ghost before = out@;
            proof {
                reveal_strlit("\\");
                assert("\\"@ =~= seq!['\\']);
            }
            out.append("\\");
            assert(out@ + collapse_backslashes(s@.subrange(i + 2, n as int)) =~= before + collapse_backslashes(rest));
            i = i + 2;
        } else {
            let piece = s.substring_char(i, i + 1);
            assert(piece@ =~= seq![s@[i as int]]);
            proof {
                if rest.len() >= 2 {
                    assert(rest.drop_first() =~= s@.subrange(i + 1, n as int));
                } else {
                    assert(s@.subrange(i + 1, n as int) =~= Seq::<char>::empty());
                    assert(rest =~= seq![s@[i as int]]);
                }
            }
            assert(collapse_backslashes(rest) == seq![s@[i as int]] + collapse_backslashes(s@.subrange(i + 1, n as int)));
            let ghost before = out@;
            out.append(piece);
            assert(out@ + collapse_backslashes(s@.subrange(i + 1, n as int)) =~= before + collapse_backslashes(rest));
            i = i + 1;
        }
    }
    assert(s@.subrange(n as int, n as int) =~= Seq::<char>::empty());
    assert(out@ + Seq::<char>::empty() =~= out@);
    out
}

/// Whether `pat` occurs in `s`.
pub fn contains_text_in(s: &str, pat: &str) -> (r: bool)
    ensures
        r == contains_text(s@, pat@),
{
    let n = s.unicode_len();
    let m = pat.unicode_len();
    if m > n {
        return false;
    }
    if m == 0 {
        assert(s@.subrange(0int, 0int + pat@.len()) =~= pat@);
        return true;
    }
    let mut i: usize = 0;
    while i <= n - m
        invariant
            n == s@.len(),
            m == pat@.len(),
            0 < m <= n,
            i <= n - m + 1,
            forall|j: int| 0 <= j < i ==> #[trigger] s@.subrange(j, j + m) != pat@,
        decreases n - m + 1 - i,
    {
        if texts_equal(s.substring_char(i, i + m), pat) {
            return true;
        }
        i = i + 1;
    }
    false
}

pub open spec fn install_dir_key() -> Seq<char> {
    "\"installdir\""@
}

/// The path a line of Steam's library list names: its fourth quoted piece,
/// with doubled backslashes made single.
pub fn library_folder_of_line(line: &str) -> (r: Option<String>)
    ensures
        r matches Some(p) ==> exists|f: Seq<char>|
            quote_field(line@, 3) == Some(f) && p@ == collapse_backslashes(f),
        r is None ==> quote_field(line@, 3) is None,
{
    match quoted_field(line, 3) {
        Some(f) => Some(collapse_doubled_backslashes(f.as_str())),
        None => None,
    }
}

/// Whether a line of an app manifest carries the install directory key.
pub fn names_install_dir(line: &str) -> (r: bool)
    ensures
        r == contains_text(line@, install_dir_key()),
{
    contains_text_in(line, "\"installdir\"")
}

} // verus!
