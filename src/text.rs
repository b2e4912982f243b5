//! A model of the text operations that the search relies on: splitting into
//! lines, substring containment and lower-casing.

use vstd::prelude::*;

verus! {

/// Whether `needle` occurs in `hay` as a contiguous run of characters.
pub open spec fn has_substring(hay: Seq<char>, needle: Seq<char>) -> bool {
    exists|i: int|
        0 <= i && i + needle.len() <= hay.len() && #[trigger] hay.subrange(i, i + needle.len())
            == needle
}

/// The pieces of `s` between newline characters, terminators removed: one more
/// piece than `s` has newlines.
pub open spec fn newline_pieces(s: Seq<char>) -> Seq<Seq<char>>
    decreases s.len(),
{
    if s.len() == 0 {
        seq![Seq::empty()]
    } else {
        let p = newline_pieces(s.drop_last());
        if s.last() == '\n' {
            p.push(Seq::empty())
        } else {
            p.update(p.len() - 1, p.last().push(s.last()))
        }
    }
}

/// `l` without one trailing carriage return, if it has one.
pub open spec fn strip_cr(l: Seq<char>) -> Seq<char> {
    if l.len() > 0 && l.last() == '\r' {
        l.drop_last()
    } else {
        l
    }
}

/// The lines of `s`: split at "\n" or "\r\n", terminators removed, with no
/// empty line after a final terminator. A carriage return that ends the last
/// line without a newline after it stays in that line.
pub open spec fn lines_of(s: Seq<char>) -> Seq<Seq<char>> {
    let p = newline_pieces(s);
    let ended = p.drop_last().map_values(|l: Seq<char>| strip_cr(l));
    if p.last().len() == 0 {
        ended
    } else {
        ended.push(p.last())
    }
}

/// The character views of a sequence of string slices.
pub open spec fn views_of(v: Seq<&str>) -> Seq<Seq<char>> {
    v.map_values(|l: &str| l@)
}

/// The lower-case form of the character `c`: one or more characters.
pub uninterp spec fn lower_char_of(c: char) -> Seq<char>;

/// The lower-case form of `s`, lowered one character at a time and joined.
pub open spec fn lowered_chars(s: Seq<char>) -> Seq<char>
    decreases s.len(),
{
    if s.len() == 0 {
        Seq::empty()
    } else {
        lowered_chars(s.drop_last()) + lower_char_of(s.last())
    }
}

/// Relies on `str::lines`: the lines of `s` as documented, in order.
#[verifier::external_body]
pub(crate) fn split_lines<'a>(s: &'a str) -> (r: Vec<&'a str>)
    ensures
        views_of(r@) == lines_of(s@),
{
    s.lines().collect()
}

/// Relies on `str::contains` with a `&str` pattern: whether `needle` occurs in
/// `hay`.
#[verifier::external_body]
pub(crate) fn contains_str(hay: &str, needle: &str) -> (r: bool)
    ensures
        r == has_substring(hay@, needle@),
{
    hay.contains(needle)
}

/// Relies on `char::to_lowercase`: the lower-case mapping of `c`, which
/// depends on `c` alone.
#[verifier::external_body]
fn lowercase_char(c: char) -> (r: String)
    ensures
        r@ == lower_char_of(c),
{
    c.to_lowercase().collect()
}

/// The lower-case form of `s`, lowered character by character.
pub fn lower_str(s: &str) -> (r: String)
    ensures
        r@ == lowered_chars(s@),
{
    let mut out = String::new();
    let ghost mut done: Seq<char> = Seq::empty();
    proof {
        broadcast use vstd::string::axiom_spec_iter;
    }
    for c in it: s.chars()
        invariant
            it.seq() == s@,
            done == it.seq().take(it.index()),
            out@ == lowered_chars(done),
    {
        let lowered = lowercase_char(c);
        proof {
            done = done.push(c);
            assert(done.drop_last() =~= it.seq().take(it.index()));
        }
        out.append(lowered.as_str());
    }
    assert(done =~= s@);
    out
}

/// Lowering text piece by piece gives the lowered text.
pub proof fn lemma_lowered_concat(a: Seq<char>, b: Seq<char>)
    ensures
        lowered_chars(a + b) == lowered_chars(a) + lowered_chars(b),
    decreases b.len(),
{
    if b.len() == 0 {
        assert(a + b =~= a);
        assert(lowered_chars(a) + lowered_chars(b) =~= lowered_chars(a));
    } else {
        assert((a + b).drop_last() =~= a + b.drop_last());
        assert((a + b).last() == b.last());
        lemma_lowered_concat(a, b.drop_last());
        assert(lowered_chars(a + b) =~= lowered_chars(a) + lowered_chars(b));
    }
}

/// Whether `r` stands in `s` starting at position `a`.
pub open spec fn run_at(s: Seq<char>, a: int, r: Seq<char>) -> bool {
    0 <= a && a + r.len() <= s.len() && s.subrange(a, a + r.len()) == r
}

/// Whether `r` stands somewhere in `s` as a contiguous run.
pub open spec fn is_run(s: Seq<char>, r: Seq<char>) -> bool {
    exists|a: int| #[trigger] run_at(s, a, r)
}

/// Every piece between newlines is a run of `s`, and the last one ends `s`.
pub proof fn lemma_pieces_are_runs(s: Seq<char>)
    ensures
        newline_pieces(s).len() >= 1,
        forall|k: int| 0 <= k < newline_pieces(s).len() ==> is_run(s, #[trigger] newline_pieces(s)[k]),
        run_at(s, s.len() - newline_pieces(s).last().len(), newline_pieces(s).last()),
    decreases s.len(),
{
    if s.len() == 0 {
        assert(s.subrange(0, 0) =~= Seq::<char>::empty());
        assert(run_at(s, 0, newline_pieces(s)[0]));
    } else {
        let t = s.drop_last();
        lemma_pieces_are_runs(t);
        let p = newline_pieces(t);
        let q = newline_pieces(s);
        assert forall|k: int| 0 <= k < q.len() implies is_run(s, #[trigger] q[k]) by {
            if k < p.len() - 1 || (k == p.len() - 1 && s.last() == '\n') {
                assert(is_run(t, p[k]));
                let a = choose|a: int| #[trigger] run_at(t, a, p[k]);
                assert(s.subrange(a, a + q[k].len()) =~= t.subrange(a, a + p[k].len()));
                assert(run_at(s, a, q[k]));
            } else if s.last() == '\n' {
                assert(s.subrange(0, 0) =~= q[k]);
                assert(run_at(s, 0, q[k]));
            } else {
                let a = s.len() - q[k].len();
                assert(s.subrange(a, a + q[k].len()) =~= q[k]);
                assert(run_at(s, a, q[k]));
            }
        }
        if s.last() == '\n' {
            assert(s.subrange(s.len() as int, s.len() as int) =~= q.last());
        } else {
            assert(s.subrange(s.len() - q.last().len(), s.len() as int) =~= q.last());
        }
    }
}

/// Every line of `s` is a run of characters of `s`.
pub proof fn lemma_lines_are_runs(s: Seq<char>)
    ensures
        forall|k: int| 0 <= k < lines_of(s).len() ==> is_run(s, #[trigger] lines_of(s)[k]),
{
    lemma_pieces_are_runs(s);
    let p = newline_pieces(s);
    let l = lines_of(s);
    assert forall|k: int| 0 <= k < l.len() implies is_run(s, #[trigger] l[k]) by {
        assert(is_run(s, p[k]));
        let a = choose|a: int| #[trigger] run_at(s, a, p[k]);
        assert(s.subrange(a, a + l[k].len()) =~= l[k]);
        assert(run_at(s, a, l[k]));
    }
}

/// A run of `s` stays a run once both are lowered.
pub proof fn lemma_run_lowered(s: Seq<char>, r: Seq<char>)
    requires
        is_run(s, r),
    ensures
        is_run(lowered_chars(s), lowered_chars(r)),
{
    let a = choose|a: int| #[trigger] run_at(s, a, r);
    let pre = s.take(a);
    let post = s.skip(a + r.len());
    assert(s =~= pre + r + post);
    lemma_lowered_concat(pre + r, post);
    lemma_lowered_concat(pre, r);
    let ls = lowered_chars(s);
    let start = lowered_chars(pre).len() as int;
    assert(ls.subrange(start, start + lowered_chars(r).len()) =~= lowered_chars(r));
    assert(run_at(ls, start, lowered_chars(r)));
}

/// An exact occurrence stays an occurrence once both sides are lowered.
pub proof fn lemma_substring_lowered(hay: Seq<char>, needle: Seq<char>)
    requires
        has_substring(hay, needle),
    ensures
        has_substring(lowered_chars(hay), lowered_chars(needle)),
{
    let i = choose|i: int|
        0 <= i && i + needle.len() <= hay.len() && #[trigger] hay.subrange(i, i + needle.len())
            == needle;
    assert(run_at(hay, i, needle));
    lemma_run_lowered(hay, needle);
    let lh = lowered_chars(hay);
    let ln = lowered_chars(needle);
    let j = choose|j: int| #[trigger] run_at(lh, j, ln);
    assert(lh.subrange(j, j + ln.len()) == ln);
}

/// A run of a run of `s` is a run of `s`.
pub proof fn lemma_substring_of_run(s: Seq<char>, line: Seq<char>, needle: Seq<char>)
    requires
        is_run(s, line),
        has_substring(line, needle),
    ensures
        has_substring(s, needle),
{
    let a = choose|a: int| #[trigger] run_at(s, a, line);
    let i = choose|i: int|
        0 <= i && i + needle.len() <= line.len() && #[trigger] line.subrange(i, i + needle.len())
            == needle;
    assert(s.subrange(a + i, a + i + needle.len()) =~= needle);
}

} // verus!
