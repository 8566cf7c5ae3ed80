use vstd::prelude::*;

verus! {

/// ASCII whitespace: space, tab, line feed, vertical tab, form feed, carriage return.
pub open spec fn is_ws(b: u8) -> bool {
    b == 32 || (9 <= b && b <= 13)
}

/// Length of the run of non-whitespace bytes that `s` starts with.
pub open spec fn word_len(s: Seq<u8>) -> nat
    decreases s.len(),
{
    if s.len() == 0 || is_ws(s[0]) {
        0
    } else {
        1 + word_len(s.drop_first())
    }
}

/// The whitespace-separated words of `s`, in order.
pub open spec fn words(s: Seq<u8>) -> Seq<Seq<u8>>
    decreases s.len(),
    via words_decreases
{
    if s.len() == 0 {
        Seq::empty()
    } else if is_ws(s[0]) {
        words(s.drop_first())
    } else {
        seq![s.subrange(0, word_len(s) as int)] + words(s.subrange(word_len(s) as int, s.len() as int))
    }
}

/// Whether `s` is a non-empty run of ASCII digits.
pub open spec fn is_decimal(s: Seq<u8>) -> bool {
    s.len() > 0 && forall|i: int| 0 <= i < s.len() ==> 48 <= #[trigger] s[i] <= 57
}

/// The value of an ASCII digit (zero for any other byte).
pub open spec fn digit(b: u8) -> nat {
    if 48 <= b <= 57 {
        (b - 48) as nat
    } else {
        0
    }
}

/// The value of a run of ASCII digits.
pub open spec fn decimal_value(s: Seq<u8>) -> nat
    decreases s.len(),
{
    if s.len() == 0 {
        0
    } else {
        decimal_value(s.drop_last()) * 10 + digit(s.last())
    }
}

#[via_fn]
proof fn words_decreases(s: Seq<u8>) {
    lemma_word_len_bound(s);
    if s.len() > 0 && !is_ws(s[0]) {
        assert(word_len(s) == 1 + word_len(s.drop_first()));
    }
}

proof fn lemma_word_len_bound(s: Seq<u8>)
    ensures
        word_len(s) <= s.len(),
        word_len(s) < s.len() ==> is_ws(s[word_len(s) as int]),
        forall|k: int| 0 <= k < word_len(s) ==> !is_ws(#[trigger] s[k]),
    decreases s.len(),
{
    if s.len() > 0 && !is_ws(s[0]) {
        lemma_word_len_bound(s.drop_first());
        assert forall|k: int| 0 <= k < word_len(s) implies !is_ws(#[trigger] s[k]) by {
            if k > 0 {
                assert(s[k] == s.drop_first()[k - 1]);
            }
        }
    }
}

proof fn lemma_word_len_exact(s: Seq<u8>, e: int)
    requires
        0 <= e <= s.len(),
        e < s.len() ==> is_ws(s[e]),
        forall|k: int| 0 <= k < e ==> !is_ws(#[trigger] s[k]),
    ensures
        word_len(s) == e,
    decreases s.len(),
{
    if e > 0 {
        let t = s.drop_first();
        assert forall|k: int| 0 <= k < e - 1 implies !is_ws(#[trigger] t[k]) by {
            assert(t[k] == s[k + 1]);
        }
        lemma_word_len_exact(t, e - 1);
    }
}

/// Splits `s` into its whitespace-separated words.
pub fn split_words(s: &[u8]) -> (r: Vec<Vec<u8>>)
    ensures
        r@.len() == words(s@).len(),
        forall|k: int| 0 <= k < r@.len() ==> (#[trigger] r@[k])@ == words(s@)[k],
{
    let mut out: Vec<Vec<u8>> = Vec::new();
    let ghost mut done: Seq<Seq<u8>> = Seq::empty();
    let mut i: usize = 0;
    assert(s@.subrange(0, s@.len() as int) =~= s@);
    while i < s.len()
        invariant
            i <= s@.len(),
            out@.len() == done.len(),
            forall|k: int| 0 <= k < out@.len() ==> (#[trigger] out@[k])@ == done[k],
            done + words(s@.subrange(i as int, s@.len() as int)) == words(s@),
        decreases s@.len() - i,
    {
        let ghost rest = s@.subrange(i as int, s@.len() as int);
        if s[i] == 32u8 || (9u8 <= s[i] && s[i] <= 13u8) {
            assert(rest.drop_first() =~= s@.subrange(i + 1, s@.len() as int));
            i = i + 1;
        } else {
            let start = i;
            let mut word: Vec<u8> = Vec::new();
            while i < s.len() && !(s[i] == 32u8 || (9u8 <= s[i] && s[i] <= 13u8))
                invariant
                    start <= i <= s@.len(),
                    word@ == s@.subrange(start as int, i as int),
                    forall|k: int| start <= k < i ==> !is_ws(#[trigger] s@[k]),
                decreases s@.len() - i,
            {
                word.push(s[i]);
                assert(word@ =~= s@.subrange(start as int, i + 1));
                i = i + 1;
            }
            proof {
                let e = i - start;
                assert forall|k: int| 0 <= k < e implies !is_ws(#[trigger] rest[k]) by {
                    assert(rest[k] == s@[start + k]);
                }
                lemma_word_len_exact(rest, e as int);
                assert(rest.subrange(0, e as int) =~= word@);
                assert(rest.subrange(e as int, rest.len() as int) =~= s@.subrange(i as int, s@.len() as int));
                assert(words(rest) == seq![word@] + words(s@.subrange(i as int, s@.len() as int)));
                done = done.push(word@);
                assert(done + words(s@.subrange(i as int, s@.len() as int)) =~= (done.drop_last() + words(rest)));
            }
            out.push(word);
        }
    }
    proof {
        assert(s@.subrange(s@.len() as int, s@.len() as int) =~= Seq::<u8>::empty());
        assert(done =~= words(s@)) by {
            assert(words(Seq::<u8>::empty()) =~= Seq::<Seq<u8>>::empty());
        }
    }
    out
}

/// Reads a run of ASCII digits as a number no larger than `max`; `None` when `s` is not
/// such a run or its value is larger.
pub fn parse_decimal(s: &[u8], max: u64) -> (r: Option<u64>)
    ensures
        r is Some <==> is_decimal(s@) && decimal_value(s@) <= max,
        r matches Some(v) ==> v == decimal_value(s@),
{
    if s.len() == 0 {
        return None;
    }
    let mut v: u64 = 0;
    let mut i: usize = 0;
    while i < s.len()
        invariant
            0 < s@.len(),
            i <= s@.len(),
            v == decimal_value(s@.subrange(0, i as int)),
            v <= max,
            forall|k: int| 0 <= k < i ==> 48 <= #[trigger] s@[k] <= 57,
        decreases s@.len() - i,
    {
        let c = s[i];
        proof {
            let p = s@.subrange(0, i + 1);
            assert(p.drop_last() =~= s@.subrange(0, i as int));
            assert(p.last() == c);
        }
        if c < 48u8 || c > 57u8 {
            assert(!is_decimal(s@));
            return None;
        }
        let d = (c - 48u8) as u64;
        if d > max || v > (max - d) / 10 {
            proof {
                lemma_decimal_grows(s@, i as int + 1);
                let x = decimal_value(s@.subrange(0, i + 1));
                assert(x == v * 10 + d);
                if d > max {
                    assert(x > max) by (nonlinear_arith)
                        requires
                            x == v * 10 + d,
                            d > max,
                            v >= 0,
                    ;
                } else {
                    assert(x > max) by (nonlinear_arith)
                        requires
                            x == v * 10 + d,
                            v > (max - d) / 10,
                            d <= max,
                    ;
                }
                assert(s@.subrange(0, s@.len() as int) =~= s@);
            }
            return None;
        }
        v = v * 10 + d;
        i = i + 1;
    }
    assert(s@.subrange(0, s@.len() as int) =~= s@);
    Some(v)
}

/// A run of digits is worth at least as much as any of its prefixes.
proof fn lemma_decimal_grows(s: Seq<u8>, i: int)
    requires
        0 <= i <= s.len(),
        forall|k: int| 0 <= k < i ==> 48 <= #[trigger] s[k] <= 57,
    ensures
        is_decimal(s) ==> decimal_value(s) >= decimal_value(s.subrange(0, i)),
    decreases s.len() - i,
{
    if i < s.len() && is_decimal(s) {
        lemma_decimal_grows(s, i + 1);
        let p = s.subrange(0, i + 1);
        assert(p.drop_last() =~= s.subrange(0, i));
    } else if is_decimal(s) {
        assert(s.subrange(0, i) =~= s);
    }
}

/// Length of the line that `s` starts with, up to the first line feed.
pub open spec fn line_len(s: Seq<u8>) -> nat
    decreases s.len(),
{
    if s.len() == 0 || s[0] == 10 {
        0
    } else {
        1 + line_len(s.drop_first())
    }
}

/// The lines of `s`, without their line feeds; no empty line after a final line feed.
pub open spec fn lines(s: Seq<u8>) -> Seq<Seq<u8>>
    decreases s.len(),
    via lines_decreases
{
    if s.len() == 0 {
        Seq::empty()
    } else if line_len(s) < s.len() {
        seq![s.subrange(0, line_len(s) as int)] + lines(s.subrange(line_len(s) as int + 1, s.len() as int))
    } else {
        seq![s]
    }
}

#[via_fn]
proof fn lines_decreases(s: Seq<u8>) {
    lemma_line_len_bound(s);
}

proof fn lemma_line_len_bound(s: Seq<u8>)
    ensures
        line_len(s) <= s.len(),
    decreases s.len(),
{
    if s.len() > 0 && s[0] != 10 {
        lemma_line_len_bound(s.drop_first());
    }
}

proof fn lemma_line_len_exact(s: Seq<u8>, e: int)
    requires
        0 <= e <= s.len(),
        e < s.len() ==> s[e] == 10,
        forall|k: int| 0 <= k < e ==> #[trigger] s[k] != 10,
    ensures
        line_len(s) == e,
    decreases s.len(),
{
    if e > 0 {
        let t = s.drop_first();
        assert forall|k: int| 0 <= k < e - 1 implies #[trigger] t[k] != 10 by {
            assert(t[k] == s[k + 1]);
        }
        lemma_line_len_exact(t, e - 1);
    }
}

/// Splits `s` into its lines.
pub fn split_lines(s: &[u8]) -> (r: Vec<Vec<u8>>)
    ensures
        r@.len() == lines(s@).len(),
        forall|k: int| 0 <= k < r@.len() ==> (#[trigger] r@[k])@ == lines(s@)[k],
{
    let mut out: Vec<Vec<u8>> = Vec::new();
    let ghost mut done: Seq<Seq<u8>> = Seq::empty();
    let mut i: usize = 0;
    assert(s@.subrange(0, s@.len() as int) =~= s@);
    while i < s.len()
        invariant
            i <= s@.len(),
            out@.len() == done.len(),
            forall|k: int| 0 <= k < out@.len() ==> (#[trigger] out@[k])@ == done[k],
            done + lines(s@.subrange(i as int, s@.len() as int)) == lines(s@),
        decreases s@.len() - i,
    {
        let ghost rest = s@.subrange(i as int, s@.len() as int);
        let start = i;
        let mut line: Vec<u8> = Vec::new();
        while i < s.len() && s[i] != 10u8
            invariant
                start <= i <= s@.len(),
                line@ == s@.subrange(start as int, i as int),
                forall|k: int| start <= k < i ==> #[trigger] s@[k] != 10,
            decreases s@.len() - i,
        {
            line.push(s[i]);
            assert(line@ =~= s@.subrange(start as int, i + 1));
            i = i + 1;
        }
        proof {
            let e = i - start;
            assert forall|k: int| 0 <= k < e implies #[trigger] rest[k] != 10 by {
                assert(rest[k] == s@[start + k]);
            }
            lemma_line_len_exact(rest, e as int);
            assert(rest.subrange(0, e as int) =~= line@);
            if i < s@.len() {
                assert(rest.subrange(e + 1, rest.len() as int) =~= s@.subrange(i + 1, s@.len() as int));
                assert(lines(rest) == seq![line@] + lines(s@.subrange(i + 1, s@.len() as int)));
            } else {
                assert(rest =~= line@);
                assert(s@.subrange(i as int, s@.len() as int) =~= Seq::<u8>::empty());
                assert(lines(rest) == seq![line@] + lines(s@.subrange(i as int, s@.len() as int)));
            }
            done = done.push(line@);
        }
        out.push(line);
        if i < s.len() {
            i = i + 1;
        }
        proof {
            assert(done + lines(s@.subrange(i as int, s@.len() as int)) =~= (done.drop_last() + lines(rest)));
        }
    }
    proof {
        assert(s@.subrange(s@.len() as int, s@.len() as int) =~= Seq::<u8>::empty());
        assert(done =~= lines(s@)) by {
            assert(lines(Seq::<u8>::empty()) =~= Seq::<Seq<u8>>::empty());
        }
    }
    out
}

} // verus!
