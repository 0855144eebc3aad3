//! Helpers over character sequences: finding separators, splitting a
//! string at separator characters, and splitting it into lines.

use vstd::prelude::*;
use vstd::string::StrSliceExecFns;

verus! {

/// First index at or after `from` whose character is `c1` or `c2`.
pub open spec fn seek(s: Seq<char>, from: int, c1: char, c2: char) -> Option<int>
    decreases s.len() - from,
{
    if from < 0 || from >= s.len() {
        None
    } else if s[from] == c1 || s[from] == c2 {
        Some(from)
    } else {
        seek(s, from + 1, c1, c2)
    }
}

pub proof fn lemma_seek_bounds(s: Seq<char>, from: int, c1: char, c2: char)
    ensures
        seek(s, from, c1, c2) matches Some(i) ==> from <= i < s.len() && (s[i] == c1 || s[i]
            == c2),
    decreases s.len() - from,
{
    if from < 0 || from >= s.len() {
    } else if s[from] == c1 || s[from] == c2 {
    } else {
        lemma_seek_bounds(s, from + 1, c1, c2);
    }
}

/// `seek` is pinned down by the pointwise facts a forward scan gathers.
pub proof fn lemma_seek_characterize(s: Seq<char>, from: int, c1: char, c2: char, r: Option<int>)
    requires
        0 <= from,
        r matches Some(i) ==> from <= i < s.len() && (s[i] == c1 || s[i] == c2) && (forall|j: int|
            from <= j < i ==> s[j] != c1 && s[j] != c2),
        r is None ==> forall|j: int| from <= j < s.len() ==> s[j] != c1 && s[j] != c2,
    ensures
        seek(s, from, c1, c2) == r,
    decreases s.len() - from,
{
    if from >= s.len() {
    } else if s[from] == c1 || s[from] == c2 {
    } else {
        lemma_seek_characterize(s, from + 1, c1, c2, r);
    }
}

/// Shifting the start of the sequence shifts the found index.
pub proof fn lemma_seek_skip(s: Seq<char>, from: int, c1: char, c2: char)
    requires
        0 <= from <= s.len(),
    ensures
        seek(s.skip(from), 0, c1, c2) == match seek(s, from, c1, c2) {
            None => None::<int>,
            Some(i) => Some(i - from),
        },
{
    let t = s.skip(from);
    lemma_seek_bounds(s, from, c1, c2);
    match seek(s, from, c1, c2) {
        None => {
            assert forall|j: int| 0 <= j < t.len() implies t[j] != c1 && t[j] != c2 by {
                lemma_seek_none_pointwise(s, from, c1, c2, j + from);
            }
            lemma_seek_characterize(t, 0, c1, c2, None);
        },
        Some(i) => {
            assert(t[i - from] == s[i]);
            assert forall|j: int| 0 <= j < i - from implies t[j] != c1 && t[j] != c2 by {
                lemma_seek_some_pointwise(s, from, c1, c2, i, j + from);
            }
            lemma_seek_characterize(t, 0, c1, c2, Some(i - from));
        },
    }
}

proof fn lemma_seek_none_pointwise(s: Seq<char>, from: int, c1: char, c2: char, j: int)
    requires
        0 <= from,
        seek(s, from, c1, c2) is None,
        from <= j < s.len(),
    ensures
        s[j] != c1 && s[j] != c2,
    decreases j - from,
{
    assert(seek(s, from, c1, c2) is None);
    assert(from < s.len());
    assert(s[from] != c1 && s[from] != c2) by {
        if s[from] == c1 || s[from] == c2 {
            assert(seek(s, from, c1, c2) == Some(from));
        }
    }
    if j > from {
        assert(seek(s, from + 1, c1, c2) is None);
        lemma_seek_none_pointwise(s, from + 1, c1, c2, j);
    }
}

proof fn lemma_seek_some_pointwise(s: Seq<char>, from: int, c1: char, c2: char, i: int, j: int)
    requires
        0 <= from,
        seek(s, from, c1, c2) == Some(i),
        from <= j < i,
    ensures
        s[j] != c1 && s[j] != c2,
    decreases j - from,
{
    lemma_seek_bounds(s, from, c1, c2);
    assert(from < i < s.len());
    assert(s[from] != c1 && s[from] != c2) by {
        if s[from] == c1 || s[from] == c2 {
            assert(seek(s, from, c1, c2) == Some(from));
        }
    }
    if j > from {
        assert(seek(s, from + 1, c1, c2) == Some(i));
        lemma_seek_some_pointwise(s, from + 1, c1, c2, i, j);
    }
}

/// The pieces of `s` between occurrences of the separators `c1` and `c2`.
/// A sequence with no separator is one piece; every separator ends a
/// piece, so `n` separators give `n + 1` pieces, empty pieces included.
pub open spec fn split_at_seps(s: Seq<char>, c1: char, c2: char) -> Seq<Seq<char>>
    decreases s.len(),
    via split_at_seps_decreases
{
    match seek(s, 0, c1, c2) {
        None => seq![s],
        Some(i) => seq![s.take(i)] + split_at_seps(s.skip(i + 1), c1, c2),
    }
}

#[via_fn]
proof fn split_at_seps_decreases(s: Seq<char>, c1: char, c2: char) {
    lemma_seek_bounds(s, 0, c1, c2);
}

/// Splitting never yields an empty list of pieces.
pub proof fn lemma_split_len(s: Seq<char>, c1: char, c2: char)
    ensures
        split_at_seps(s, c1, c2).len() >= 1,
    decreases s.len(),
{
    lemma_seek_bounds(s, 0, c1, c2);
    match seek(s, 0, c1, c2) {
        None => {},
        Some(i) => {
            lemma_split_len(s.skip(i + 1), c1, c2);
        },
    }
}

/// Compares two strings character by character.
pub fn str_eq(a: &str, b: &str) -> (r: bool)
    ensures
        r == (a@ == b@),
{
    let n = a.unicode_len();
    let m = b.unicode_len();
    if n != m {
        return false;
    }
    let mut i: usize = 0;
    while i < n
        invariant
            i <= n,
            n == a@.len(),
            n == b@.len(),
            forall|j: int| 0 <= j < i ==> a@[j] == b@[j],
        decreases n - i,
    {
        if a.get_char(i) != b.get_char(i) {
            return false;
        }
        i += 1;
    }
    proof {
        assert(a@ =~= b@);
    }
    true
}

/// One character folded to upper case, for the ASCII letters; every
/// other character stays as it is.
pub open spec fn upper_char(c: char) -> char {
    if 'a' <= c && c <= 'z' {
        ((c as u8) - 32) as char
    } else {
        c
    }
}

/// A sequence folded to ASCII upper case, character by character.
pub open spec fn upper_of(s: Seq<char>) -> Seq<char> {
    s.map_values(|c: char| upper_char(c))
}

/// Compares two strings with ASCII letters folded to upper case.
pub fn str_eq_upper(a: &str, b: &str) -> (r: bool)
    ensures
        r == (upper_of(a@) == upper_of(b@)),
{
    let n = a.unicode_len();
    let m = b.unicode_len();
    if n != m {
        proof {
            assert(upper_of(a@).len() != upper_of(b@).len());
        }
        return false;
    }
    let mut i: usize = 0;
    while i < n
        invariant
            i <= n,
            n == a@.len(),
            n == b@.len(),
            forall|j: int| 0 <= j < i ==> upper_char(a@[j]) == upper_char(b@[j]),
        decreases n - i,
    {
        let ca = a.get_char(i);
        let cb = b.get_char(i);
        let ua = if 'a' <= ca && ca <= 'z' {
            ((ca as u8) - 32) as char
        } else {
            ca
        };
        let ub = if 'a' <= cb && cb <= 'z' {
            ((cb as u8) - 32) as char
        } else {
            cb
        };
        if ua != ub {
            proof {
                assert(upper_of(a@)[i as int] != upper_of(b@)[i as int]);
            }
            return false;
        }
        i += 1;
    }
    proof {
        assert(upper_of(a@) =~= upper_of(b@));
    }
    true
}

/// Whether `pre` is a prefix of `s`.
pub open spec fn is_prefix(pre: Seq<char>, s: Seq<char>) -> bool {
    pre.len() <= s.len() && s.take(pre.len() as int) == pre
}

/// Tests whether `s` starts with `pre`, character by character.
pub fn str_starts_with(s: &str, pre: &str) -> (r: bool)
    ensures
        r == is_prefix(pre@, s@),
{
    let n = s.unicode_len();
    let m = pre.unicode_len();
    if m > n {
        return false;
    }
    let mut i: usize = 0;
    while i < m
        invariant
            i <= m,
            m <= n,
            n == s@.len(),
            m == pre@.len(),
            forall|j: int| 0 <= j < i ==> s@[j] == pre@[j],
        decreases m - i,
    {
        if s.get_char(i) != pre.get_char(i) {
            proof {
                assert(s@.take(m as int)[i as int] != pre@[i as int]);
            }
            return false;
        }
        i += 1;
    }
    proof {
        assert(s@.take(m as int) =~= pre@);
    }
    true
}

/// Finds the first occurrence of `c1` or `c2` in `s` at or after `from`.
pub fn find_from(s: &str, from: usize, c1: char, c2: char) -> (r: Option<usize>)
    requires
        from <= s@.len(),
    ensures
        r matches Some(i) ==> seek(s@, from as int, c1, c2) == Some(i as int) && from <= i
            < s@.len(),
        r is None ==> seek(s@, from as int, c1, c2) is None,
{
    let n = s.unicode_len();
    let mut i = from;
    while i < n
        invariant
            from <= i <= n,
            n == s@.len(),
            forall|j: int| from <= j < i ==> s@[j] != c1 && s@[j] != c2,
        decreases n - i,
    {
        let c = s.get_char(i);
        if c == c1 || c == c2 {
            proof {
                lemma_seek_characterize(s@, from as int, c1, c2, Some(i as int));
            }
            return Some(i);
        }
        i += 1;
    }
    proof {
        lemma_seek_characterize(s@, from as int, c1, c2, None);
    }
    None
}

/// Splits `s` at every occurrence of `c1` or `c2`.
pub fn split_str(s: &str, c1: char, c2: char) -> (r: Vec<String>)
    ensures
        r.deep_view() == split_at_seps(s@, c1, c2),
        r.len() >= 1,
{
    let n = s.unicode_len();
    let mut pieces: Vec<String> = Vec::new();
    let mut pos: usize = 0;
    proof {
        assert(s@.skip(0) =~= s@);
        assert(pieces.deep_view() + split_at_seps(s@, c1, c2) =~= split_at_seps(s@, c1, c2));
    }
    loop
        invariant
            pos <= n,
            n == s@.len(),
            split_at_seps(s@, c1, c2) == pieces.deep_view() + split_at_seps(
                s@.skip(pos as int),
                c1,
                c2,
            ),
        decreases n - pos,
    {
        let found = find_from(s, pos, c1, c2);
        match found {
            None => {
                let piece = s.substring_char(pos, n).to_owned();
                proof {
                    lemma_seek_skip(s@, pos as int, c1, c2);
                    assert(split_at_seps(s@.skip(pos as int), c1, c2) =~= seq![
                        s@.subrange(pos as int, n as int),
                    ]);
                    assert((pieces.deep_view() + seq![piece@]) =~= pieces.deep_view().push(piece@));
                }
                let ghost old_pieces = pieces.deep_view();
                pieces.push(piece);
                proof {
                    assert(pieces.deep_view() =~= old_pieces.push(
                        s@.subrange(pos as int, n as int),
                    ));
                    assert(pieces.deep_view() =~= old_pieces + seq![
                        s@.subrange(pos as int, n as int),
                    ]);
                }
                return pieces;
            },
            Some(i) => {
                let piece = s.substring_char(pos, i).to_owned();
                let ghost old_pieces = pieces.deep_view();
                proof {
                    lemma_seek_skip(s@, pos as int, c1, c2);
                    assert(s@.skip(pos as int).take(i - pos as int) =~= s@.subrange(
                        pos as int,
                        i as int,
                    ));
                    assert(s@.skip(pos as int).skip(i - pos as int + 1) =~= s@.skip(i + 1));
                    assert(split_at_seps(s@.skip(pos as int), c1, c2) == seq![
                        s@.subrange(pos as int, i as int),
                    ] + split_at_seps(s@.skip(i as int + 1), c1, c2));
                }
                pieces.push(piece);
                proof {
                    assert(pieces.deep_view() =~= old_pieces + seq![
                        s@.subrange(pos as int, i as int),
                    ]);
                    assert(pieces.deep_view() + split_at_seps(s@.skip(i as int + 1), c1, c2)
                        =~= old_pieces + (seq![s@.subrange(pos as int, i as int)] + split_at_seps(
                        s@.skip(i as int + 1),
                        c1,
                        c2,
                    )));
                }
                pos = i + 1;
            },
        }
    }
}

/// The pieces that are not empty, in order.
pub open spec fn nonempty_pieces(ts: Seq<Seq<char>>) -> Seq<Seq<char>>
    decreases ts.len(),
{
    if ts.len() == 0 {
        seq![]
    } else if ts.last().len() > 0 {
        nonempty_pieces(ts.drop_last()).push(ts.last())
    } else {
        nonempty_pieces(ts.drop_last())
    }
}

/// Splits `s` at runs of spaces and tabs into its non-empty tokens.
pub fn split_tokens(s: &str) -> (r: Vec<String>)
    ensures
        r.deep_view() == nonempty_pieces(split_at_seps(s@, ' ', '\t')),
{
    let pieces = split_str(s, ' ', '\t');
    let mut out: Vec<String> = Vec::new();
    let mut k: usize = 0;
    let n = pieces.len();
    while k < n
        invariant
            k <= n,
            n == pieces@.len(),
            pieces.deep_view() == split_at_seps(s@, ' ', '\t'),
            out.deep_view() == nonempty_pieces(pieces.deep_view().take(k as int)),
        decreases n - k,
    {
        let piece: &String = &pieces[k];
        proof {
            assert(piece@ == pieces.deep_view()[k as int]);
            assert(pieces.deep_view().take(k + 1).drop_last() =~= pieces.deep_view().take(
                k as int,
            ));
            assert(pieces.deep_view().take(k + 1).last() == pieces.deep_view()[k as int]);
        }
        if piece.as_str().unicode_len() > 0 {
            let ghost old_out = out.deep_view();
            out.push(piece.clone());
            proof {
                assert(out.deep_view() =~= old_out.push(piece@));
            }
        }
        k += 1;
    }
    proof {
        assert(pieces.deep_view().take(n as int) =~= pieces.deep_view());
    }
    out
}

/// First index at or after `from` where a blank line separates the
/// header block from the body: a carriage return, newline, carriage
/// return, newline in a row.
pub open spec fn seek_blank(s: Seq<char>, from: int) -> Option<int>
    decreases s.len() - from,
{
    if from < 0 || from + 4 > s.len() {
        None
    } else if s[from] == '\r' && s[from + 1] == '\n' && s[from + 2] == '\r' && s[from + 3]
        == '\n' {
        Some(from)
    } else {
        seek_blank(s, from + 1)
    }
}

/// `seek_blank` is pinned down by the pointwise facts a forward scan gathers.
pub proof fn lemma_seek_blank_characterize(s: Seq<char>, from: int, r: Option<int>)
    requires
        0 <= from,
        r matches Some(i) ==> from <= i && i + 4 <= s.len() && s[i] == '\r' && s[i + 1] == '\n'
            && s[i + 2] == '\r' && s[i + 3] == '\n' && (forall|j: int|
            from <= j < i ==> !((#[trigger] s[j]) == '\r' && s[j + 1] == '\n' && s[j + 2] == '\r'
                && s[j + 3] == '\n')),
        r is None ==> forall|j: int|
            from <= j && j + 4 <= s.len() ==> !((#[trigger] s[j]) == '\r' && s[j + 1] == '\n'
                && s[j + 2] == '\r' && s[j + 3] == '\n'),
    ensures
        seek_blank(s, from) == r,
    decreases s.len() - from,
{
    if from + 4 > s.len() {
    } else if s[from] == '\r' && s[from + 1] == '\n' && s[from + 2] == '\r' && s[from + 3]
        == '\n' {
    } else {
        lemma_seek_blank_characterize(s, from + 1, r);
    }
}

/// Finds the first blank-line separator in `s`.
pub fn find_blank(s: &str) -> (r: Option<usize>)
    ensures
        r matches Some(i) ==> seek_blank(s@, 0) == Some(i as int) && i + 4 <= s@.len(),
        r is None ==> seek_blank(s@, 0) is None,
{
    let n = s.unicode_len();
    if n < 4 {
        proof {
            lemma_seek_blank_characterize(s@, 0, None);
        }
        return None;
    }
    let mut i: usize = 0;
    while i <= n - 4
        invariant
            i <= n - 3,
            n == s@.len(),
            n >= 4,
            forall|j: int|
                0 <= j < i ==> !((#[trigger] s@[j]) == '\r' && s@[j + 1] == '\n' && s@[j + 2] == '\r'
                    && s@[j + 3] == '\n'),
        decreases n - i,
    {
        if s.get_char(i) == '\r' && s.get_char(i + 1) == '\n' && s.get_char(i + 2) == '\r'
            && s.get_char(i + 3) == '\n' {
            proof {
                lemma_seek_blank_characterize(s@, 0, Some(i as int));
            }
            return Some(i);
        }
        i += 1;
    }
    proof {
        lemma_seek_blank_characterize(s@, 0, None);
    }
    None
}

/// A line with a trailing carriage return loses it; others stay as they are.
pub open spec fn strip_cr(l: Seq<char>) -> Seq<char> {
    if l.len() > 0 && l[l.len() - 1] == '\r' {
        l.drop_last()
    } else {
        l
    }
}

/// The lines of `s`: the pieces between newline characters, each with a
/// trailing carriage return removed.
pub open spec fn lines_of(s: Seq<char>) -> Seq<Seq<char>> {
    split_at_seps(s, '\n', '\n').map_values(|l: Seq<char>| strip_cr(l))
}

/// Splits `s` into lines at `'\n'` and strips one trailing `'\r'` from each.
pub fn split_lines(s: &str) -> (r: Vec<String>)
    ensures
        r.deep_view() == lines_of(s@),
        r.len() >= 1,
{
    let raw = split_str(s, '\n', '\n');
    let mut out: Vec<String> = Vec::new();
    let mut k: usize = 0;
    let n = raw.len();
    while k < n
        invariant
            k <= n,
            n == raw.len(),
            raw.deep_view() == split_at_seps(s@, '\n', '\n'),
            out.deep_view() =~= raw.deep_view().take(k as int).map_values(
                |l: Seq<char>| strip_cr(l),
            ),
        decreases n - k,
    {
        let line: &String = &raw[k];
        let m = line.as_str().unicode_len();
        let stripped: String = if m > 0 && line.as_str().get_char(m - 1) == '\r' {
            line.as_str().substring_char(0, m - 1).to_owned()
        } else {
            line.clone()
        };
        proof {
            assert(line@ == raw.deep_view()[k as int]);
            if m > 0 && line@[m - 1] == '\r' {
                assert(line@.subrange(0, m - 1) =~= line@.drop_last());
            }
            assert(stripped@ == strip_cr(raw.deep_view()[k as int]));
        }
        let ghost old_out = out.deep_view();
        let ghost old_vec = out@;
        let ghost stripped_view = stripped@;
        proof {
            assert(raw.deep_view().take(k as int).len() == k);
            assert(old_out.len() == k);
            assert(old_vec.len() == k);
        }
        out.push(stripped);
        proof {
            let m1 = raw.deep_view().take(k + 1).map_values(|l: Seq<char>| strip_cr(l));
            assert(m1.len() == k + 1);
            assert(out@ == old_vec.push(stripped));
            assert forall|j: int| 0 <= j < k + 1 implies out.deep_view()[j] == m1[j] by {
                assert(m1[j] == strip_cr(raw.deep_view().take(k + 1)[j]));
                assert(raw.deep_view().take(k + 1)[j] == raw.deep_view()[j]);
                if j < k {
                    assert(old_vec.len() == k);
                    assert(old_vec.push(stripped)[j] == old_vec[j]);
                    assert(out@[j] == old_vec[j]);
                    assert(out.deep_view()[j] == old_vec[j]@);
                    assert(old_out[j] == old_vec[j]@);
                    assert(old_out[j] == raw.deep_view().take(k as int).map_values(
                        |l: Seq<char>| strip_cr(l),
                    )[j]);
                } else {
                    assert(old_vec.len() == k);
                    assert(old_vec.push(stripped)[k as int] == stripped);
                    assert(out@[j] == stripped);
                    assert(out.deep_view()[j] == stripped_view);
                }
            }
            assert(out.deep_view() =~= m1);
        }
        k += 1;
    }
    proof {
        assert(raw.deep_view().take(n as int) =~= raw.deep_view());
        lemma_split_len(s@, '\n', '\n');
    }
    out
}

} // verus!
