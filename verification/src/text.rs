//! Text primitives that the mount-table grammar is built from: cutting a
//! string at a separator, joining the pieces again, decimal numbers, and a
//! few character tests.
//!
//! Every contract here speaks of a string through its view, the sequence of
//! its characters.

use vstd::prelude::*;
use vstd::std_specs::iter::IteratorSpec;
use vstd::string::{StringExecFns, StringSliceAdditionalSpecFns};

verus! {

/// The views of a sequence of string slices.
pub open spec fn str_views(parts: Seq<&str>) -> Seq<Seq<char>> {
    Seq::new(parts.len(), |i: int| parts[i]@)
}

/// The views of a sequence of owned strings.
pub open spec fn string_views(parts: Seq<String>) -> Seq<Seq<char>> {
    Seq::new(parts.len(), |i: int| parts[i]@)
}

/// No element of `pieces` holds the character `sep`.
pub open spec fn pieces_free_of(pieces: Seq<Seq<char>>, sep: char) -> bool {
    forall|i: int| 0 <= i < pieces.len() ==> !(#[trigger] pieces[i]).contains(sep)
}

/// The pieces of `s` between occurrences of `sep`.
///
/// Reading `s` from left to right, a separator closes the current piece and
/// opens a new, empty one; any other character extends the current piece.
/// There is always at least one piece, and `n` separators give `n + 1`
/// pieces, some of which may be empty.
pub open spec fn spec_split(s: Seq<char>, sep: char) -> Seq<Seq<char>>
    decreases s.len(),
{
    if s.len() == 0 {
        seq![Seq::<char>::empty()]
    } else {
        let before = spec_split(s.drop_last(), sep);
        if s.last() == sep {
            before.push(Seq::<char>::empty())
        } else {
            before.drop_last().push(before.last().push(s.last()))
        }
    }
}

/// The pieces written one after another with `sep` between neighbours.
pub open spec fn spec_join(pieces: Seq<Seq<char>>, sep: char) -> Seq<char>
    decreases pieces.len(),
{
    if pieces.len() == 0 {
        Seq::<char>::empty()
    } else if pieces.len() == 1 {
        pieces[0]
    } else {
        spec_join(pieces.drop_last(), sep).push(sep) + pieces.last()
    }
}

/// Pushing `x` onto `s` adds exactly `x` to what `s` contains.
pub proof fn lemma_push_contains(s: Seq<char>, x: char, c: char)
    ensures
        s.push(x).contains(c) <==> (s.contains(c) || x == c),
{
    let t = s.push(x);
    if s.contains(c) {
        let j = choose|j: int| 0 <= j < s.len() && s[j] == c;
        assert(t[j] == c);
    }
    if x == c {
        assert(t[s.len() as int] == c);
    }
    if t.contains(c) {
        let j = choose|j: int| 0 <= j < t.len() && t[j] == c;
        if j < s.len() {
            assert(s[j] == c);
        }
    }
}

/// A concatenation contains what either part contains.
pub proof fn lemma_concat_contains(a: Seq<char>, b: Seq<char>, c: char)
    ensures
        (a + b).contains(c) <==> (a.contains(c) || b.contains(c)),
{
    let t = a + b;
    if a.contains(c) {
        let j = choose|j: int| 0 <= j < a.len() && a[j] == c;
        assert(t[j] == c);
    }
    if b.contains(c) {
        let j = choose|j: int| 0 <= j < b.len() && b[j] == c;
        assert(t[a.len() + j] == c);
    }
    if t.contains(c) {
        let j = choose|j: int| 0 <= j < t.len() && t[j] == c;
        if j < a.len() {
            assert(a[j] == c);
        } else {
            assert(b[j - a.len()] == c);
        }
    }
}

/// How one more character changes the pieces.
pub proof fn lemma_split_push(s: Seq<char>, c: char, sep: char)
    ensures
        spec_split(s, sep).len() >= 1,
        c == sep ==> spec_split(s.push(c), sep) == spec_split(s, sep).push(Seq::<char>::empty()),
        c != sep ==> spec_split(s.push(c), sep) == spec_split(s, sep).drop_last().push(
            spec_split(s, sep).last().push(c),
        ),
    decreases s.len(),
{
    assert(s.push(c).drop_last() =~= s);
    if s.len() > 0 {
        lemma_split_push(s.drop_last(), s.last(), sep);
    }
}

/// A string without the separator is its own single piece.
pub proof fn lemma_split_whole(s: Seq<char>, sep: char)
    requires
        !s.contains(sep),
    ensures
        spec_split(s, sep) == seq![s],
    decreases s.len(),
{
    if s.len() == 0 {
        assert(s =~= Seq::<char>::empty());
    } else {
        let front = s.drop_last();
        assert(front.push(s.last()) =~= s);
        lemma_push_contains(front, s.last(), sep);
        lemma_split_whole(front, sep);
        assert(seq![front].drop_last().push(front.push(s.last())) =~= seq![s]);
    }
}

/// After a separator, a piece without the separator is the last piece.
pub proof fn lemma_split_append(a: Seq<char>, b: Seq<char>, sep: char)
    requires
        !b.contains(sep),
    ensures
        spec_split(a.push(sep) + b, sep) == spec_split(a, sep).push(b),
    decreases b.len(),
{
    if b.len() == 0 {
        assert(a.push(sep) + b =~= a.push(sep));
        assert(b =~= Seq::<char>::empty());
        lemma_split_push(a, sep, sep);
    } else {
        let front = b.drop_last();
        assert(front.push(b.last()) =~= b);
        lemma_push_contains(front, b.last(), sep);
        lemma_split_append(a, front, sep);
        assert((a.push(sep) + front).push(b.last()) =~= a.push(sep) + b);
        lemma_split_push(a.push(sep) + front, b.last(), sep);
        assert(spec_split(a, sep).push(front).drop_last().push(front.push(b.last()))
            =~= spec_split(a, sep).push(b));
    }
}

/// Cutting a joined text gives back the pieces it was joined from, as long
/// as there is at least one piece and none holds the separator.
pub proof fn lemma_split_join(pieces: Seq<Seq<char>>, sep: char)
    requires
        pieces.len() >= 1,
        pieces_free_of(pieces, sep),
    ensures
        spec_split(spec_join(pieces, sep), sep) == pieces,
    decreases pieces.len(),
{
    if pieces.len() == 1 {
        lemma_split_whole(pieces[0], sep);
        assert(seq![pieces[0]] =~= pieces);
    } else {
        let front = pieces.drop_last();
        assert(pieces_free_of(front, sep)) by {
            assert forall|i: int| 0 <= i < front.len() implies !(#[trigger] front[i]).contains(
                sep,
            ) by {
                assert(front[i] == pieces[i]);
            }
        }
        lemma_split_join(front, sep);
        assert(!pieces.last().contains(sep)) by {
            assert(pieces.last() == pieces[pieces.len() - 1]);
        }
        lemma_split_append(spec_join(front, sep), pieces.last(), sep);
        assert(front.push(pieces.last()) =~= pieces);
    }
}

/// Joining the pieces of a text gives the text back, and no piece holds the
/// separator.
pub proof fn lemma_join_split(s: Seq<char>, sep: char)
    ensures
        spec_split(s, sep).len() >= 1,
        pieces_free_of(spec_split(s, sep), sep),
        spec_join(spec_split(s, sep), sep) == s,
    decreases s.len(),
{
    if s.len() == 0 {
        assert(s =~= Seq::<char>::empty());
    } else {
        let front = s.drop_last();
        let before = spec_split(front, sep);
        lemma_join_split(front, sep);
        assert(front.push(s.last()) =~= s);
        if s.last() == sep {
            let after = before.push(Seq::<char>::empty());
            assert(after.drop_last() =~= before);
            assert(spec_join(after, sep) =~= s);
            assert forall|i: int| 0 <= i < after.len() implies !(#[trigger] after[i]).contains(
                sep,
            ) by {
                if i < before.len() {
                    assert(after[i] == before[i]);
                }
            }
        } else {
            let grown = before.last().push(s.last());
            let after = before.drop_last().push(grown);
            lemma_push_contains(before.last(), s.last(), sep);
            assert(!before.last().contains(sep)) by {
                assert(before.last() == before[before.len() - 1]);
            }
            assert forall|i: int| 0 <= i < after.len() implies !(#[trigger] after[i]).contains(
                sep,
            ) by {
                if i < before.len() - 1 {
                    assert(after[i] == before[i]);
                }
            }
            assert(after.drop_last() =~= before.drop_last());
            if before.len() == 1 {
                assert(spec_join(before, sep) == before[0]);
                assert(spec_join(after, sep) =~= s);
            } else {
                assert(spec_join(before, sep) == spec_join(before.drop_last(), sep).push(sep)
                    + before.last());
                assert(spec_join(after, sep) =~= s);
            }
        }
    }
}

/// The pieces of a text hold no character that the text does not hold.
pub proof fn lemma_split_within(s: Seq<char>, sep: char, c: char)
    requires
        !s.contains(c),
    ensures
        pieces_free_of(spec_split(s, sep), c),
    decreases s.len(),
{
    if s.len() > 0 {
        let front = s.drop_last();
        let before = spec_split(front, sep);
        assert(front.push(s.last()) =~= s);
        lemma_push_contains(front, s.last(), c);
        lemma_split_within(front, sep, c);
        lemma_split_push(front, s.last(), sep);
        let after = spec_split(s, sep);
        assert forall|i: int| 0 <= i < after.len() implies !(#[trigger] after[i]).contains(c) by {
            if i < before.len() - 1 {
                assert(after[i] == before[i]);
            } else if s.last() != sep {
                assert(before.last() == before[before.len() - 1]);
                lemma_push_contains(before.last(), s.last(), c);
            } else if i < before.len() {
                assert(after[i] == before[i]);
            }
        }
    }
}

/// A joined text holds no character but the separator and what the pieces
/// hold.
pub proof fn lemma_join_within(pieces: Seq<Seq<char>>, sep: char, c: char)
    requires
        pieces_free_of(pieces, c),
        c != sep,
    ensures
        !spec_join(pieces, sep).contains(c),
    decreases pieces.len(),
{
    if pieces.len() >= 2 {
        let front = pieces.drop_last();
        assert forall|i: int| 0 <= i < front.len() implies !(#[trigger] front[i]).contains(c) by {
            assert(front[i] == pieces[i]);
        }
        lemma_join_within(front, sep, c);
        lemma_push_contains(spec_join(front, sep), sep, c);
        assert(pieces.last() == pieces[pieces.len() - 1]);
        lemma_concat_contains(spec_join(front, sep).push(sep), pieces.last(), c);
    }
}

/// Joining one more piece appends the separator and the piece.
pub proof fn lemma_join_push(pieces: Seq<Seq<char>>, piece: Seq<char>, sep: char)
    requires
        pieces.len() >= 1,
    ensures
        spec_join(pieces.push(piece), sep) == spec_join(pieces, sep).push(sep) + piece,
{
    assert(pieces.push(piece).drop_last() =~= pieces);
}

/// Cuts `s` at every occurrence of `sep`.
///
/// The parts are the one way to write `s` as texts without `sep`, joined by
/// `sep`.
pub fn split<'a>(s: &'a str, sep: char) -> (parts: Vec<&'a str>)
    ensures
        str_views(parts@) == spec_split(s@, sep),
        parts@.len() >= 1,
        pieces_free_of(str_views(parts@), sep),
        spec_join(str_views(parts@), sep) == s@,
{
    proof {
        lemma_join_split(s@, sep);
    }
    let total = s.unicode_len();
    let mut parts: Vec<&'a str> = Vec::new();
    let mut start: usize = 0;
    let mut i: usize = 0;
    proof {
        assert(s@.take(0) =~= Seq::<char>::empty());
        assert(str_views(parts@).push(s@.subrange(0, 0)) =~= seq![Seq::<char>::empty()]);
    }
    for c in it: s.chars()
        invariant
            it.seq() == s@,
            s@.len() == total,
            i == it.index(),
            start <= i,
            str_views(parts@).push(s@.subrange(start as int, i as int)) == spec_split(
                s@.take(i as int),
                sep,
            ),
    {
        proof {
            assert(s@.take(i + 1) =~= s@.take(i as int).push(c));
            lemma_split_push(s@.take(i as int), c, sep);
        }
        let ghost done = str_views(parts@);
        let ghost current = s@.subrange(start as int, i as int);
        assert(done.push(current).drop_last() =~= done);
        if c == sep {
            parts.push(s.substring_char(start, i));
            start = i + 1;
            proof {
                assert(str_views(parts@) =~= done.push(current));
                assert(s@.subrange(i + 1, i + 1) =~= Seq::<char>::empty());
            }
        } else {
            assert(s@.subrange(start as int, i + 1) =~= current.push(c));
        }
        i = i + 1;
    }
    let ghost done = str_views(parts@);
    parts.push(s.substring_char(start, i));
    proof {
        assert(s@.take(i as int) =~= s@);
        assert(str_views(parts@) =~= done.push(s@.subrange(start as int, i as int)));
    }
    parts
}

/// Whether `c` occurs in `s`.
pub fn contains_char(s: &str, c: char) -> (found: bool)
    ensures
        found == s@.contains(c),
{
    let mut found = false;
    for x in it: s.chars()
        invariant
            it.seq() == s@,
            found == s@.take(it.index() as int).contains(c),
    {
        proof {
            assert(s@.take(it.index() + 1) =~= s@.take(it.index() as int).push(x));
            lemma_push_contains(s@.take(it.index() as int), x, c);
        }
        if x == c {
            found = true;
        }
    }
    assert(s@.take(s@.len() as int) =~= s@);
    found
}

/// Whether `a` and `b` hold the same characters.
pub fn str_eq(a: &str, b: &str) -> (same: bool)
    ensures
        same == (a@ == b@),
{
    let mut ia = a.chars();
    let mut ib = b.chars();
    let ghost mut k: int = 0;
    loop
        invariant
            0 <= k <= a@.len(),
            k <= b@.len(),
            ia.remaining() == a@.skip(k),
            ib.remaining() == b@.skip(k),
            a@.take(k) == b@.take(k),
        decreases a@.len() - k,
    {
        let x = ia.next();
        let y = ib.next();
        match (x, y) {
            (Some(p), Some(q)) => {
                if p != q {
                    assert(a@[k] != b@[k]);
                    return false;
                }
                proof {
                    assert(a@.take(k + 1) =~= a@.take(k).push(p));
                    assert(b@.take(k + 1) =~= b@.take(k).push(q));
                    assert(a@.skip(k).drop_first() =~= a@.skip(k + 1));
                    assert(b@.skip(k).drop_first() =~= b@.skip(k + 1));
                    k = k + 1;
                }
            },
            (None, None) => {
                assert(a@.take(k) =~= a@);
                assert(b@.take(k) =~= b@);
                return true;
            },
            _ => {
                assert(a@.len() != b@.len());
                return false;
            },
        }
    }
}

/// Whether `s` begins with the characters of `prefix`.
pub fn starts_with(s: &str, prefix: &str) -> (found: bool)
    ensures
        found == prefix@.is_prefix_of(s@),
{
    let mut is = s.chars();
    let mut ip = prefix.chars();
    let ghost mut k: int = 0;
    loop
        invariant
            0 <= k <= s@.len(),
            k <= prefix@.len(),
            is.remaining() == s@.skip(k),
            ip.remaining() == prefix@.skip(k),
            s@.take(k) == prefix@.take(k),
        decreases prefix@.len() - k,
    {
        let y = ip.next();
        match y {
            None => {
                assert(prefix@.take(k) =~= prefix@);
                assert(s@.take(k) =~= s@.subrange(0, prefix@.len() as int));
                return true;
            },
            Some(q) => {
                let x = is.next();
                match x {
                    None => {
                        return false;
                    },
                    Some(p) => {
                        if p != q {
                            assert(!prefix@.is_prefix_of(s@)) by {
                                if prefix@.len() <= s@.len() {
                                    assert(s@.subrange(0, prefix@.len() as int)[k] == p);
                                }
                            }
                            return false;
                        }
                        proof {
                            assert(s@.take(k + 1) =~= s@.take(k).push(p));
                            assert(prefix@.take(k + 1) =~= prefix@.take(k).push(q));
                            assert(s@.skip(k).drop_first() =~= s@.skip(k + 1));
                            assert(prefix@.skip(k).drop_first() =~= prefix@.skip(k + 1));
                            k = k + 1;
                        }
                    },
                }
            },
        }
    }
}

/// The length of `s` in bytes of its UTF-8 encoding, which is how a path's
/// length is measured.
pub open spec fn spec_byte_len(s: Seq<char>) -> nat {
    vstd::utf8::encode_utf8(s).len()
}

/// The length of `s` in bytes.
pub fn byte_len(s: &str) -> (n: usize)
    ensures
        n == spec_byte_len(s@),
{
    s.as_bytes().len()
}

/// Writes `parts` one after another with the one-character text `sep`
/// between neighbours.
pub(crate) fn join(parts: &Vec<String>, sep: &str) -> (joined: String)
    requires
        sep@.len() == 1,
    ensures
        joined@ == spec_join(string_views(parts@), sep@[0]),
{
    let ghost pieces = string_views(parts@);
    let mut joined = String::new();
    let mut i: usize = 0;
    proof {
        assert(pieces.take(0) =~= Seq::<Seq<char>>::empty());
    }
    while i < parts.len()
        invariant
            i <= parts.len(),
            sep@.len() == 1,
            pieces == string_views(parts@),
            joined@ == spec_join(pieces.take(i as int), sep@[0]),
        decreases parts.len() - i,
    {
        let ghost before = joined@;
        if i > 0 {
            joined.append(sep);
        }
        joined.append(parts[i].as_str());
        proof {
            assert(pieces.take(i + 1) =~= pieces.take(i as int).push(pieces[i as int]));
            assert(pieces.take(i + 1).drop_last() =~= pieces.take(i as int));
            assert(sep@ =~= seq![sep@[0]]);
            if i > 0 {
                assert(joined@ =~= before.push(sep@[0]) + pieces[i as int]);
            } else {
                assert(joined@ =~= pieces[0]);
            }
        }
        i = i + 1;
    }
    proof {
        assert(pieces.take(i as int) =~= pieces);
    }
    joined
}

/// Whether `c` is white space: a character with the Unicode property
/// `White_Space`.
pub open spec fn spec_is_whitespace(c: char) -> bool {
    ||| '\u{0009}' <= c && c <= '\u{000D}'
    ||| c == ' '
    ||| c == '\u{0085}'
    ||| c == '\u{00A0}'
    ||| c == '\u{1680}'
    ||| '\u{2000}' <= c && c <= '\u{200A}'
    ||| c == '\u{2028}'
    ||| c == '\u{2029}'
    ||| c == '\u{202F}'
    ||| c == '\u{205F}'
    ||| c == '\u{3000}'
}

/// Whether `s` holds nothing but white space.
pub open spec fn spec_is_blank(s: Seq<char>) -> bool {
    forall|i: int| 0 <= i < s.len() ==> spec_is_whitespace(#[trigger] s[i])
}

/// Whether `c` is white space.
pub fn is_whitespace(c: char) -> (yes: bool)
    ensures
        yes == spec_is_whitespace(c),
{
    ('\u{0009}' <= c && c <= '\u{000D}') || c == ' ' || c == '\u{0085}' || c == '\u{00A0}' || c
        == '\u{1680}' || ('\u{2000}' <= c && c <= '\u{200A}') || c == '\u{2028}' || c
        == '\u{2029}' || c == '\u{202F}' || c == '\u{205F}' || c == '\u{3000}'
}

/// Whether `s` holds nothing but white space.
pub fn is_blank(s: &str) -> (blank: bool)
    ensures
        blank == spec_is_blank(s@),
{
    for c in it: s.chars()
        invariant
            it.seq() == s@,
            spec_is_blank(s@.take(it.index() as int)),
    {
        if !is_whitespace(c) {
            assert(s@[it.index() as int] == c);
            return false;
        }
        assert(s@.take(it.index() + 1) =~= s@.take(it.index() as int).push(c));
    }
    assert(s@.take(s@.len() as int) =~= s@);
    true
}

} // verus!
