use vstd::prelude::*;

verus! {

broadcast use vstd::string::group_string_axioms;

/// `String::push` (std): the string afterwards is the string before with
/// `ch` appended, as std's documentation says.
pub assume_specification[ String::push ](string: &mut String, ch: char)
    ensures
        final(string)@ == old(string)@.push(ch),
;

// ---------------------------------------------------------------------------
// Characters and tokens
// ---------------------------------------------------------------------------

/// Characters with the Unicode `White_Space` property.
pub open spec fn is_space(c: char) -> bool {
    let u = c as u32;
    (0x09 <= u <= 0x0D) || u == 0x20 || u == 0x85 || u == 0xA0 || u == 0x1680 || (0x2000 <= u
        <= 0x200A) || u == 0x2028 || u == 0x2029 || u == 0x202F || u == 0x205F || u == 0x3000
}

/// Whether `c` is a Unicode white-space character.
pub fn is_space_char(c: char) -> (r: bool)
    ensures
        r == is_space(c),
{
    let u = c as u32;
    (0x09 <= u && u <= 0x0D) || u == 0x20 || u == 0x85 || u == 0xA0 || u == 0x1680 || (0x2000
        <= u && u <= 0x200A) || u == 0x2028 || u == 0x2029 || u == 0x202F || u == 0x205F || u
        == 0x3000
}

/// The maximal runs of non-white-space characters of `s`, in order.
pub open spec fn tokens(s: Seq<char>) -> Seq<Seq<char>>
    decreases s.len(),
{
    if s.len() == 0 {
        Seq::empty()
    } else {
        let rest = tokens(s.drop_last());
        let c = s.last();
        if is_space(c) {
            rest
        } else if s.len() >= 2 && !is_space(s[s.len() - 2]) {
            rest.drop_last().push(rest.last().push(c))
        } else {
            rest.push(seq![c])
        }
    }
}

/// The characters of a string slice.
pub fn chars_of(text: &str) -> (v: Vec<char>)
    ensures
        v@ == text@,
{
    let mut v: Vec<char> = Vec::new();
    for c in it: text.chars()
        invariant
            v@ == it.seq().take(it.index() as int),
    {
        v.push(c);
    }
    v
}

/// The character positions `[start, end)` of the tokens of `s`.
pub open spec fn spans_match(s: Seq<char>, spans: Seq<(usize, usize)>, toks: Seq<Seq<char>>) -> bool {
    &&& spans.len() == toks.len()
    &&& forall|k: int|
        0 <= k < spans.len() ==> {
            &&& 0 <= (#[trigger] spans[k]).0 < spans[k].1 <= s.len()
            &&& s.subrange(spans[k].0 as int, spans[k].1 as int) == toks[k]
        }
}

proof fn lemma_tokens_last(s: Seq<char>)
    requires
        s.len() > 0,
        !is_space(s.last()),
    ensures
        tokens(s).len() > 0,
        tokens(s).last().len() > 0,
        tokens(s).last().last() == s.last(),
    decreases s.len(),
{
}

/// Splits `s` at white space, as `str::split_whitespace` does, giving each
/// token as a range of character positions.
pub fn token_spans(s: &Vec<char>) -> (spans: Vec<(usize, usize)>)
    ensures
        spans_match(s@, spans@, tokens(s@)),
{
    let n = s.len();
    let mut spans: Vec<(usize, usize)> = Vec::new();
    let mut i: usize = 0;
    while i < n
        invariant
            n == s@.len(),
            0 <= i <= n,
            spans_match(s@.take(i as int), spans@, tokens(s@.take(i as int))),
            i > 0 && !is_space(s@[i - 1]) ==> spans@.len() > 0 && spans@.last().1 == i,
        decreases n - i,
    {
        let ghost pre = s@.take(i as int);
        let ghost cur = s@.take(i + 1);
        assert(cur.drop_last() == pre);
        let c = s[i];
        if is_space_char(c) {
            proof {
                assert(tokens(cur) == tokens(pre));
                assert forall|k: int| 0 <= k < spans.len() implies {
                    &&& 0 <= (#[trigger] spans@[k]).0 < spans@[k].1 <= cur.len()
                    &&& cur.subrange(spans@[k].0 as int, spans@[k].1 as int) == tokens(cur)[k]
                } by {
                    assert(cur.subrange(spans@[k].0 as int, spans@[k].1 as int) =~= pre.subrange(
                        spans@[k].0 as int,
                        spans@[k].1 as int,
                    ));
                }
            }
        } else if i > 0 && !is_space_char(s[i - 1]) {
            proof {
                lemma_tokens_last(pre);
            }
            let last = spans.len() - 1;
            let (a, _) = spans[last];
            spans.set(last, (a, i + 1));
            proof {
                let toks = tokens(cur);
                assert(toks == tokens(pre).drop_last().push(tokens(pre).last().push(c)));
                assert forall|k: int| 0 <= k < spans.len() implies {
                    &&& 0 <= (#[trigger] spans@[k]).0 < spans@[k].1 <= cur.len()
                    &&& cur.subrange(spans@[k].0 as int, spans@[k].1 as int) == toks[k]
                } by {
                    if k < last {
                        assert(cur.subrange(spans@[k].0 as int, spans@[k].1 as int) =~= pre.subrange(
                            spans@[k].0 as int,
                            spans@[k].1 as int,
                        ));
                    } else {
                        assert(cur.subrange(a as int, i + 1) =~= pre.subrange(a as int, i as int).push(
                            c,
                        ));
                    }
                }
            }
        } else {
            spans.push((i, i + 1));
            proof {
                let toks = tokens(cur);
                assert(toks == tokens(pre).push(seq![c]));
                assert forall|k: int| 0 <= k < spans.len() implies {
                    &&& 0 <= (#[trigger] spans@[k]).0 < spans@[k].1 <= cur.len()
                    &&& cur.subrange(spans@[k].0 as int, spans@[k].1 as int) == toks[k]
                } by {
                    if k < spans.len() - 1 {
                        assert(cur.subrange(spans@[k].0 as int, spans@[k].1 as int) =~= pre.subrange(
                            spans@[k].0 as int,
                            spans@[k].1 as int,
                        ));
                    } else {
                        assert(cur.subrange(i as int, i + 1) =~= seq![c]);
                    }
                }
            }
        }
        i = i + 1;
    }
    assert(s@.take(n as int) == s@);
    spans
}

} // verus!

verus! {

/// Appends the characters of `s`.
pub fn push_str(out: &mut String, s: &str)
    ensures
        final(out)@ == old(out)@ + s@,
{
    let ghost start = out@;
    for c in it: s.chars()
        invariant
            out@ == start + it.seq().take(it.index() as int),
    {
        out.push(c);
    }
}

/// Whether `s` holds the character `c`.
pub fn str_contains(s: &str, c: char) -> (r: bool)
    ensures
        r == s@.contains(c),
{
    let v = chars_of(s);
    let mut i: usize = 0;
    while i < v.len()
        invariant
            v@ == s@,
            0 <= i <= v@.len(),
            forall|j: int| 0 <= j < i ==> v@[j] != c,
        decreases v@.len() - i,
    {
        if v[i] == c {
            assert(s@[i as int] == c);
            return true;
        }
        i = i + 1;
    }
    false
}

/// The texts `ts` joined by single spaces.
pub open spec fn joined(ts: Seq<Seq<char>>) -> Seq<char>
    decreases ts.len(),
{
    if ts.len() == 0 {
        Seq::empty()
    } else if ts.len() == 1 {
        ts[0]
    } else {
        joined(ts.drop_last()) + seq![' '] + ts.last()
    }
}

/// Joining two non-empty lists of texts is joining each and putting a space
/// between them.
pub proof fn lemma_joined_concat(xs: Seq<Seq<char>>, ys: Seq<Seq<char>>)
    requires
        xs.len() > 0,
        ys.len() > 0,
    ensures
        joined(xs + ys) == joined(xs) + seq![' '] + joined(ys),
    decreases ys.len(),
{
    let s = xs + ys;
    assert(s.drop_last() =~= xs + ys.drop_last());
    assert(s.last() == ys.last());
    if ys.len() == 1 {
        assert(xs + ys.drop_last() =~= xs);
        assert(joined(ys) == ys[0]);
    } else {
        lemma_joined_concat(xs, ys.drop_last());
        assert(joined(s) =~= joined(xs) + seq![' '] + joined(ys));
    }
}

} // verus!
