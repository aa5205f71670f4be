use vstd::prelude::*;

verus! {

/// ASCII whitespace: space, tab, line feed, vertical tab, form feed, carriage
/// return.
pub open spec fn is_space(b: u8) -> bool {
    b == 32 || (9 <= b && b <= 13)
}

pub open spec fn is_digit(b: u8) -> bool {
    48 <= b && b <= 57
}

/// The number that a string of decimal digits writes.
pub open spec fn decimal(s: Seq<u8>) -> int
    decreases s.len(),
{
    if s.len() == 0 {
        0
    } else {
        decimal(s.drop_last()) * 10 + (s.last() - 48)
    }
}

/// The words of `s`: its maximal runs of non-whitespace bytes, in order.
pub open spec fn words(s: Seq<u8>) -> Seq<Seq<u8>>
    decreases s.len(),
{
    if s.len() == 0 {
        seq![]
    } else {
        let w = words(s.drop_last());
        if is_space(s.last()) {
            w
        } else if s.len() >= 2 && !is_space(s[s.len() - 2]) {
            w.update(w.len() - 1, w.last().push(s.last()))
        } else {
            w.push(seq![s.last()])
        }
    }
}

/// A word that is a decimal id: digits only, of a value that fits in `u64`.
pub open spec fn is_id(w: Seq<u8>) -> bool {
    &&& w.len() >= 1
    &&& forall|i: int| 0 <= i < w.len() ==> is_digit(#[trigger] w[i])
    &&& decimal(w) <= u64::MAX
}

proof fn lemma_words_nonempty(s: Seq<u8>)
    requires
        s.len() >= 1,
        !is_space(s.last()),
    ensures
        words(s).len() >= 1,
    decreases s.len(),
{
    if s.len() >= 2 && !is_space(s[s.len() - 2]) {
        let p = s.drop_last();
        assert(p.last() == s[s.len() - 2]);
        lemma_words_nonempty(p);
    }
}

/// `a` is a prefix of `b`.
spec fn starts(b: Seq<u8>, a: Seq<u8>) -> bool {
    a.len() <= b.len() && b.take(a.len() as int) == a
}

/// The words of a prefix are the first words of the whole, but for the last,
/// which the whole may continue.
proof fn lemma_words_prefix(s: Seq<u8>, i: int, j: int)
    requires
        0 <= i <= j <= s.len(),
    ensures
        ({
            let a = words(s.take(i));
            let b = words(s.take(j));
            &&& a.len() <= b.len()
            &&& forall|k: int| 0 <= k < a.len() - 1 ==> b[k] == a[k]
            &&& a.len() >= 1 ==> starts(b[a.len() - 1], a.last())
        }),
    decreases j - i,
{
    if i < j {
        lemma_words_prefix(s, i, j - 1);
        let t = s.take(j);
        assert(t.drop_last() == s.take(j - 1));
        let a = words(s.take(i));
        let b0 = words(s.take(j - 1));
        let b = words(t);
        if !is_space(t.last()) && t.len() >= 2 && !is_space(t[t.len() - 2]) {
            lemma_words_nonempty(t.drop_last());
            if a.len() >= 1 && a.len() == b0.len() {
                let x = b0.last();
                assert(b[a.len() - 1] == x.push(t.last()));
                assert(x.push(t.last()).take(a.last().len() as int) =~= x.take(a.last().len() as int));
            }
        }
    } else {
        assert forall|x: Seq<u8>| #[trigger] starts(x, x) by {
            assert(x.take(x.len() as int) =~= x);
        }
    }
}

proof fn lemma_decimal_nonneg(v: Seq<u8>)
    requires
        forall|i: int| 0 <= i < v.len() ==> is_digit(#[trigger] v[i]),
    ensures
        0 <= decimal(v),
    decreases v.len(),
{
    if v.len() > 0 {
        let u = v.drop_last();
        assert forall|i: int| 0 <= i < u.len() implies is_digit(#[trigger] u[i]) by {
            assert(u[i] == v[i]);
        }
        lemma_decimal_nonneg(u);
        assert(is_digit(v[v.len() - 1]));
    }
}

proof fn lemma_decimal_grows(w: Seq<u8>, v: Seq<u8>)
    requires
        starts(v, w),
        forall|i: int| 0 <= i < v.len() ==> is_digit(#[trigger] v[i]),
    ensures
        decimal(w) <= decimal(v),
    decreases v.len(),
{
    if v.len() > w.len() {
        let u = v.drop_last();
        assert(u.take(w.len() as int) =~= v.take(w.len() as int));
        assert forall|i: int| 0 <= i < u.len() implies is_digit(#[trigger] u[i]) by {
            assert(u[i] == v[i]);
        }
        lemma_decimal_grows(w, u);
        lemma_decimal_nonneg(u);
        assert(is_digit(v[v.len() - 1]));
    } else {
        assert(v =~= w) by {
            assert(v.take(w.len() as int) =~= v);
        }
    }
}

/// A word that starts as no id can end as one.
proof fn lemma_no_id_stays(w: Seq<u8>, v: Seq<u8>)
    requires
        w.len() >= 1,
        starts(v, w),
        !is_id(w),
    ensures
        !is_id(v),
{
    if is_id(v) {
        assert forall|i: int| 0 <= i < w.len() implies is_digit(#[trigger] w[i]) by {
            assert(w[i] == v.take(w.len() as int)[i]);
        }
        lemma_decimal_grows(w, v);
    }
}

/// Reads the ids of one input line: its words, each a decimal number that
/// fits in `u64`. Returns `None` if any word is not such a number.
pub fn parse_ids(line: &[u8]) -> (r: Option<Vec<u64>>)
    ensures
        match r {
            Some(v) => {
                &&& forall|k: int| 0 <= k < words(line@).len() ==> is_id(#[trigger] words(line@)[k])
                &&& v@.len() == words(line@).len()
                &&& forall|k: int| 0 <= k < v@.len() ==> v@[k] == decimal(#[trigger] words(line@)[k])
            },
            None => exists|k: int| 0 <= k < words(line@).len() && !is_id(#[trigger] words(line@)[k]),
        },
{
    let n: usize = line.len();
    let mut out: Vec<u64> = Vec::new();
    let mut cur: u64 = 0;
    let mut in_word: bool = false;
    let mut i: usize = 0;
    while i < n
        invariant
            n == line@.len(),
            i <= n,
            in_word == (i > 0 && !is_space(line@[i - 1])),
            ({
                let ws = words(line@.take(i as int));
                &&& out@.len() == (if in_word { ws.len() - 1 } else { ws.len() as int })
                &&& forall|k: int| 0 <= k < out@.len() ==> is_id(#[trigger] ws[k])
                &&& forall|k: int| 0 <= k < out@.len() ==> out@[k] == decimal(#[trigger] ws[k])
                &&& in_word ==> ws.len() >= 1 && is_id(ws.last()) && cur == decimal(ws.last())
            }),
        decreases n - i,
    {
        let b: u8 = line[i];
        let ghost p = line@.take(i as int);
        let ghost q = line@.take(i + 1);
        proof {
            assert(q.drop_last() == p);
            assert(q.last() == b);
            if i > 0 {
                assert(q[q.len() - 2] == line@[i - 1]);
            }
        }
        if b == 32 || (9 <= b && b <= 13) {
            if in_word {
                out.push(cur);
                in_word = false;
            }
            proof {
                let ws = words(p);
                assert(words(q) == ws);
                if out@.len() > 0 {
                    assert(out@.last() == decimal(ws[out@.len() - 1]));
                }
            }
        } else if 48 <= b && b <= 57 {
            let d: u64 = (b - 48) as u64;
            if in_word {
                if cur > (u64::MAX - d) / 10 {
                    proof {
                        let w = words(q).last();
                        assert(w == words(p).last().push(b));
                        assert(w.drop_last() == words(p).last());
                        assert(!is_id(w));
                        lemma_words_prefix(line@, i + 1, n as int);
                        assert(line@.take(n as int) == line@);
                        lemma_no_id_stays(w, words(line@)[words(q).len() - 1]);
                    }
                    return None;
                }
                proof {
                    assert(cur * 10 + d <= u64::MAX) by (nonlinear_arith)
                        requires
                            cur <= (u64::MAX - d) / 10,
                            d <= 9,
                    ;
                }
                cur = cur * 10 + d;
                proof {
                    lemma_words_nonempty(q);
                    let w = words(q).last();
                    assert(words(q).len() == words(p).len());
                    assert forall|k: int| 0 <= k < out@.len() implies words(q)[k] == words(p)[k] by {}
                    assert(w == words(p).last().push(b));
                    assert(w.drop_last() == words(p).last());
                    assert forall|k: int| 0 <= k < w.len() implies is_digit(#[trigger] w[k]) by {
                        if k < w.len() - 1 {
                            assert(w[k] == words(p).last()[k]);
                        }
                    }
                    assert(w.last() == b);
                    assert(decimal(w) == cur);
                    assert(is_id(w));
                }
            } else {
                cur = d;
                in_word = true;
                proof {
                    let w = words(q).last();
                    assert(words(q).len() == words(p).len() + 1);
                    assert forall|k: int| 0 <= k < out@.len() implies words(q)[k] == words(p)[k] by {}
                    assert(w == seq![b]);
                    assert(w.drop_last() =~= Seq::<u8>::empty());
                    assert(decimal(w.drop_last()) == 0);
                    assert(w.last() == b);
                    assert(decimal(w) == cur);
                    assert(is_id(w));
                }
            }
        } else {
            proof {
                let ws = words(q);
                lemma_words_nonempty(q);
                let w = ws.last();
                assert(w.last() == b);
                assert(!is_id(w));
                lemma_words_prefix(line@, i + 1, n as int);
                assert(line@.take(n as int) == line@);
                lemma_no_id_stays(w, words(line@)[ws.len() - 1]);
            }
            return None;
        }
        i += 1;
    }
    if in_word {
        out.push(cur);
    }
    proof {
        assert(line@.take(n as int) == line@);
    }
    Some(out)
}

} // verus!
