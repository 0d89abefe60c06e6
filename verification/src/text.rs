//! Byte-sequence utilities: decimal digit runs, canonical decimal rendering,
//! line splitting and joining, and leftmost non-overlapping substring
//! replacement. All contracts are stated over `Seq<u8>`.
#![verifier::loop_isolation(false)]
use vstd::prelude::*;

verus! {

/// A byte is a decimal digit (`'0'` through `'9'`).
pub open spec fn is_digit(b: u8) -> bool {
    ('0' as u8) <= b && b <= ('9' as u8)
}

/// Every byte of `s` is a decimal digit.
pub open spec fn is_digit_seq(s: Seq<u8>) -> bool {
    forall|i: int| 0 <= i < s.len() ==> is_digit(#[trigger] s[i])
}

/// Numeric value of a digit string, most significant digit first.
pub open spec fn dec_val(s: Seq<u8>) -> int
    decreases s.len(),
{
    if s.len() == 0 {
        0
    } else {
        dec_val(s.drop_last()) * 10 + (s.last() - ('0' as u8))
    }
}

/// Canonical decimal rendering of a non-negative integer (no leading zeros).
pub open spec fn dec_str(n: int) -> Seq<u8>
    recommends
        n >= 0,
    decreases n,
{
    if n < 10 {
        seq![((('0' as u8) + n) as u8)]
    } else {
        dec_str(n / 10).push(((('0' as u8) + n % 10) as u8))
    }
}

/// `p` is a prefix of `s`.
pub open spec fn starts_with(s: Seq<u8>, p: Seq<u8>) -> bool {
    p.len() <= s.len() && (forall|i: int| 0 <= i < p.len() ==> s[i] == #[trigger] p[i])
}

/// Length of the maximal run of decimal digits in `s` starting at `i`.
pub open spec fn digit_run_len(s: Seq<u8>, i: int) -> int
    decreases s.len() - i,
{
    if i < 0 || i >= s.len() || !is_digit(s[i]) {
        0
    } else {
        1 + digit_run_len(s, i + 1)
    }
}

/// Index of the first decimal digit of `s` at or after `i` (`s.len()` if none).
pub open spec fn first_digit_pos(s: Seq<u8>, i: int) -> int
    decreases s.len() - i,
{
    if i < 0 || i >= s.len() {
        s.len() as int
    } else if is_digit(s[i]) {
        i
    } else {
        first_digit_pos(s, i + 1)
    }
}

/// The first contiguous run of decimal digits in `s` (empty if `s` has no digit).
pub open spec fn first_digit_run(s: Seq<u8>) -> Seq<u8> {
    let p = first_digit_pos(s, 0);
    s.subrange(p, p + digit_run_len(s, p))
}

/// Executable digit test.
pub fn byte_is_digit(b: u8) -> (r: bool)
    ensures
        r == is_digit(b),
{
    ('0' as u8) <= b && b <= ('9' as u8)
}

/// Canonical decimal rendering, executable.
pub fn u32_to_dec(n: u32) -> (r: Vec<u8>)
    ensures
        r@ == dec_str(n as int),
    decreases n,
{
    if n < 10 {
        let mut v: Vec<u8> = Vec::new();
        v.push(('0' as u8) + (n as u8));
        assert(v@ =~= dec_str(n as int));
        v
    } else {
        let mut v = u32_to_dec(n / 10);
        v.push(('0' as u8) + ((n % 10) as u8));
        assert(v@ =~= dec_str(n as int));
        v
    }
}

/// Maximal digit-run length starting at `from`, executable.
pub fn digit_run_at(s: &[u8], from: usize) -> (r: usize)
    requires
        from <= s@.len(),
    ensures
        from + r == from as int + digit_run_len(s@, from as int),
        from + r <= s@.len(),
{
    let mut j: usize = from;
    while j < s.len() && byte_is_digit(s[j])
        invariant
            from <= j <= s@.len(),
            digit_run_len(s@, from as int) == j - from + digit_run_len(s@, j as int),
        decreases s@.len() - j,
    {
        assert(digit_run_len(s@, j as int) == 1 + digit_run_len(s@, j + 1));
        j = j + 1;
    }
    j - from
}

/// Every byte of the run counted by `digit_run_len` is a digit, and the run is
/// maximal: the byte just past it (if any) is not a digit.
pub proof fn lemma_run_props(s: Seq<u8>, i: int)
    requires
        0 <= i <= s.len(),
    ensures
        i + digit_run_len(s, i) <= s.len(),
        forall|k: int| i <= k < i + digit_run_len(s, i) ==> is_digit(#[trigger] s[k]),
        i + digit_run_len(s, i) == s.len() || !is_digit(s[i + digit_run_len(s, i)]),
    decreases s.len() - i,
{
    if i < s.len() && is_digit(s[i]) {
        lemma_run_props(s, i + 1);
    }
}

/// A run of `k` digits at `i` followed by a non-digit (or the end) has
/// `digit_run_len` exactly `k`.
pub proof fn lemma_run_exact(s: Seq<u8>, i: int, k: int)
    requires
        0 <= i,
        0 <= k,
        i + k <= s.len(),
        forall|j: int| i <= j < i + k ==> is_digit(#[trigger] s[j]),
        i + k == s.len() || !is_digit(s[i + k]),
    ensures
        digit_run_len(s, i) == k,
    decreases k,
{
    if k > 0 {
        lemma_run_exact(s, i + 1, k - 1);
    }
}

/// Every byte of a canonical decimal rendering is a digit.
pub proof fn lemma_dec_str_digits(n: int)
    requires
        n >= 0,
    ensures
        is_digit_seq(dec_str(n)),
        dec_str(n).len() >= 1,
    decreases n,
{
    if n >= 10 {
        lemma_dec_str_digits(n / 10);
    }
}

/// Parsing a canonical decimal rendering gives the number back.
pub proof fn lemma_dec_str_val(n: int)
    requires
        n >= 0,
    ensures
        dec_val(dec_str(n)) == n,
    decreases n,
{
    if n < 10 {
        let s = dec_str(n);
        assert(s =~= seq![((('0' as u8) + n) as u8)]);
        assert(s.drop_last() =~= Seq::<u8>::empty());
        assert(dec_val(s.drop_last()) == 0);
        assert(dec_val(s) == dec_val(s.drop_last()) * 10 + (s.last() - ('0' as u8)));
    } else {
        lemma_dec_str_val(n / 10);
        let s = dec_str(n);
        assert(s == dec_str(n / 10).push(((('0' as u8) + n % 10) as u8)));
        assert(s.drop_last() =~= dec_str(n / 10));
        assert(s.last() == ((('0' as u8) + n % 10) as u8));
        assert(dec_val(s) == dec_val(s.drop_last()) * 10 + (s.last() - ('0' as u8)));
        assert(dec_val(s) == (n / 10) * 10 + n % 10);
    }
}

/// The value of a digit string is below `10^len`.
pub proof fn lemma_dec_val_upper(s: Seq<u8>)
    requires
        is_digit_seq(s),
        s.len() <= 4,
    ensures
        0 <= dec_val(s) < 10000,
        s.len() <= 3 ==> dec_val(s) < 1000,
        s.len() <= 2 ==> dec_val(s) < 100,
        s.len() <= 1 ==> dec_val(s) < 10,
    decreases s.len(),
{
    if s.len() > 0 {
        assert(is_digit_seq(s.drop_last())) by {
            assert(forall|i: int|
                0 <= i < s.drop_last().len() ==> #[trigger] s.drop_last()[i] == s[i]);
        }
        lemma_dec_val_upper(s.drop_last());
    }
}

/// A nonempty digit string that does not begin with `'0'` has value at least 1,
/// and the canonical rendering of its value is the string itself.
pub proof fn lemma_dec_canonical(s: Seq<u8>)
    requires
        is_digit_seq(s),
        s.len() >= 1,
        s[0] != ('0' as u8),
    ensures
        dec_val(s) >= 1,
        dec_str(dec_val(s)) =~= s,
    decreases s.len(),
{
    if s.len() == 1 {
        assert(s.drop_last() =~= Seq::<u8>::empty());
        assert(dec_val(s.drop_last()) == 0);
        assert(s.last() == s[0]);
        assert(dec_val(s) == s[0] - ('0' as u8));
        assert(dec_str(dec_val(s)) =~= s);
    } else {
        let d = s.drop_last();
        assert(is_digit_seq(d)) by {
            assert(forall|i: int| 0 <= i < d.len() ==> #[trigger] d[i] == s[i]);
        }
        assert(d[0] == s[0]);
        lemma_dec_canonical(d);
        assert(dec_val(s) == dec_val(d) * 10 + (s.last() - ('0' as u8)));
        assert(dec_val(s) >= 10);
        assert(dec_val(s) / 10 == dec_val(d)) by {
            assert(0 <= s.last() - ('0' as u8) < 10);
        }
        assert(dec_val(s) % 10 == s.last() - ('0' as u8)) by {
            assert(0 <= s.last() - ('0' as u8) < 10);
        }
        assert(dec_str(dec_val(s)) =~= dec_str(dec_val(d)).push(s.last()));
        assert(dec_str(dec_val(d)) =~= d);
        assert(d.push(s.last()) =~= s);
    }
}

/// Dropping one leading `'0'` does not change the value of a digit string.
pub proof fn lemma_strip_zero(s: Seq<u8>)
    requires
        is_digit_seq(s),
        s.len() >= 1,
        s[0] == ('0' as u8),
    ensures
        dec_val(s) == dec_val(s.subrange(1, s.len() as int)),
    decreases s.len(),
{
    if s.len() == 1 {
        assert(dec_val(s) == dec_val(s.drop_last()) * 10 + 0);
        assert(s.subrange(1, 1) =~= Seq::<u8>::empty());
    } else {
        let d = s.drop_last();
        assert(is_digit_seq(d)) by {
            assert(forall|i: int| 0 <= i < d.len() ==> #[trigger] d[i] == s[i]);
        }
        lemma_strip_zero(d);
        assert(s.subrange(1, s.len() as int).drop_last() =~= d.subrange(1, d.len() as int));
        assert(s.subrange(1, s.len() as int).last() == s.last());
    }
}

/// Canonical decimal rendering of the value of a nonempty digit run:
/// the run with leading zeros removed (or `"0"` when the run is all zeros).
pub fn canonical_num(run: &[u8]) -> (r: Vec<u8>)
    requires
        is_digit_seq(run@),
        run@.len() >= 1,
    ensures
        r@ == dec_str(dec_val(run@)),
{
    let mut k: usize = 0;
    proof {
        assert(run@.subrange(0, run@.len() as int) =~= run@);
    }
    while k < run.len() && run[k] == ('0' as u8)
        invariant
            0 <= k <= run@.len(),
            is_digit_seq(run@),
            dec_val(run@) == dec_val(run@.subrange(k as int, run@.len() as int)),
        decreases run@.len() - k,
    {
        proof {
            let tail = run@.subrange(k as int, run@.len() as int);
            assert(is_digit_seq(tail));
            assert(tail[0] == run@[k as int]);
            lemma_strip_zero(tail);
            assert(tail.subrange(1, tail.len() as int) =~= run@.subrange(
                k + 1,
                run@.len() as int,
            ));
        }
        k = k + 1;
    }
    if k == run.len() {
        // the run is all zeros: its value is 0
        proof {
            assert(run@.subrange(k as int, run@.len() as int) =~= Seq::<u8>::empty());
            assert(dec_val(run@) == 0);
        }
        let mut v: Vec<u8> = Vec::new();
        v.push('0' as u8);
        assert(v@ =~= dec_str(0));
        v
    } else {
        let mut v: Vec<u8> = Vec::new();
        let ghost tail = run@.subrange(k as int, run@.len() as int);
        let mut j: usize = k;
        while j < run.len()
            invariant
                k <= j <= run@.len(),
                v@ =~= run@.subrange(k as int, j as int),
            decreases run@.len() - j,
        {
            v.push(run[j]);
            assert(v@ =~= run@.subrange(k as int, j + 1));
            j = j + 1;
        }
        proof {
            assert(v@ =~= tail);
            assert(is_digit_seq(tail));
            assert(tail[0] != ('0' as u8));
            lemma_dec_canonical(tail);
        }
        v
    }
}

/// Copy of a byte slice as a vector.
pub fn copy_bytes(v: &[u8]) -> (r: Vec<u8>)
    ensures
        r@ == v@,
{
    let mut out: Vec<u8> = Vec::new();
    out.extend_from_slice(v);
    assert(out@ =~= v@);
    out
}

/// `p` occurs in `s` at position `at`.
pub open spec fn matches_at(s: Seq<u8>, p: Seq<u8>, at: int) -> bool {
    0 <= at && at + p.len() <= s.len() && (forall|j: int|
        0 <= j < p.len() ==> s[at + j] == #[trigger] p[j])
}

/// Executable occurrence test.
pub fn bytes_match_at(s: &[u8], p: &[u8], at: usize) -> (r: bool)
    ensures
        r == matches_at(s@, p@, at as int),
{
    if at > s.len() || p.len() > s.len() - at {
        return false;
    }
    let slen: usize = s.len();
    let mut j: usize = 0;
    while j < p.len()
        invariant
            0 <= j <= p@.len(),
            at + p@.len() <= s@.len(),
            s@.len() == slen,
            forall|i: int| 0 <= i < j ==> s@[at + i] == #[trigger] p@[i],
        decreases p@.len() - j,
    {
        if s[at + j] != p[j] {
            return false;
        }
        j = j + 1;
    }
    true
}

/// Byte-sequence equality, executable.
pub fn bytes_eq(a: &[u8], b: &[u8]) -> (r: bool)
    ensures
        r == (a@ == b@),
{
    if a.len() != b.len() {
        proof {
            assert(a@.len() != b@.len());
        }
        return false;
    }
    let mut j: usize = 0;
    while j < a.len()
        invariant
            0 <= j <= a@.len(),
            a@.len() == b@.len(),
            forall|i: int| 0 <= i < j ==> a@[i] == b@[i],
        decreases a@.len() - j,
    {
        if a[j] != b[j] {
            return false;
        }
        j = j + 1;
    }
    proof {
        assert(a@ =~= b@);
    }
    true
}

/// Replace every leftmost non-overlapping occurrence of `pat` in `s` by `rep`
/// (the semantics of `str::replace` for a nonempty pattern).
pub open spec fn replace_all(s: Seq<u8>, pat: Seq<u8>, rep: Seq<u8>) -> Seq<u8>
    recommends
        pat.len() >= 1,
    decreases s.len(),
{
    if s.len() == 0 {
        s
    } else if pat.len() >= 1 && matches_at(s, pat, 0) {
        rep + replace_all(s.skip(pat.len() as int), pat, rep)
    } else {
        seq![s[0]] + replace_all(s.skip(1), pat, rep)
    }
}

/// Executable replacement.
pub fn replace_all_bytes(s: &[u8], pat: &[u8], rep: &[u8]) -> (r: Vec<u8>)
    requires
        pat@.len() >= 1,
    ensures
        r@ == replace_all(s@, pat@, rep@),
{
    let mut out: Vec<u8> = Vec::new();
    let mut i: usize = 0;
    proof {
        assert(s@.skip(0) =~= s@);
        assert(out@ + replace_all(s@, pat@, rep@) =~= replace_all(s@, pat@, rep@));
    }
    while i < s.len()
        invariant
            0 <= i <= s@.len(),
            pat@.len() >= 1,
            replace_all(s@, pat@, rep@) == out@ + replace_all(s@.skip(i as int), pat@, rep@),
        decreases s@.len() - i,
    {
        let ghost tail = s@.skip(i as int);
        if bytes_match_at(s, pat, i) {
            proof {
                assert(matches_at(tail, pat@, 0)) by {
                    assert(forall|j: int|
                        0 <= j < pat@.len() ==> tail[j] == s@[i + j] && s@[i + j]
                            == #[trigger] pat@[j]);
                }
                assert(tail.skip(pat@.len() as int) =~= s@.skip(i + pat@.len()));
                assert(replace_all(tail, pat@, rep@) == rep@ + replace_all(
                    s@.skip(i + pat@.len()),
                    pat@,
                    rep@,
                ));
            }
            out.extend_from_slice(rep);
            i = i + pat.len();
        } else {
            proof {
                assert(!matches_at(tail, pat@, 0)) by {
                    if matches_at(tail, pat@, 0) {
                        assert(forall|j: int|
                            0 <= j < pat@.len() ==> s@[i + j] == tail[j] && tail[j]
                                == #[trigger] pat@[j]);
                    }
                }
                assert(tail.len() > 0);
                assert(tail[0] == s@[i as int]);
                assert(tail.skip(1) =~= s@.skip(i + 1));
                assert(replace_all(tail, pat@, rep@) == seq![s@[i as int]] + replace_all(
                    s@.skip(i + 1),
                    pat@,
                    rep@,
                ));
            }
            out.push(s[i]);
            i = i + 1;
        }
        proof {
            assert(out@ + replace_all(s@.skip(i as int), pat@, rep@) =~= replace_all(
                s@,
                pat@,
                rep@,
            ));
        }
    }
    proof {
        assert(s@.skip(i as int) =~= Seq::<u8>::empty());
        assert(out@ + replace_all(s@.skip(i as int), pat@, rep@) =~= out@);
    }
    out
}

/// Number of occurrences of the byte `x` in `s`.
pub open spec fn count_byte(s: Seq<u8>, x: u8) -> int
    decreases s.len(),
{
    if s.len() == 0 {
        0
    } else {
        count_byte(s.drop_last(), x) + if s.last() == x {
            1int
        } else {
            0int
        }
    }
}

/// The byte `x` never occurs in `s` (used with `x` the newline).
pub open spec fn free_of(s: Seq<u8>, x: u8) -> bool {
    forall|i: int| 0 <= i < s.len() ==> s[i] != x
}

/// Every line of `ls` is free of the byte `x`.
pub open spec fn all_free_of(ls: Seq<Seq<u8>>, x: u8) -> bool {
    forall|k: int| 0 <= k < ls.len() ==> free_of(#[trigger] ls[k], x)
}

/// Concatenation preserves freeness.
pub proof fn lemma_free_concat(a: Seq<u8>, b: Seq<u8>, x: u8)
    requires
        free_of(a, x),
        free_of(b, x),
    ensures
        free_of(a + b, x),
{
    assert forall|i: int| 0 <= i < (a + b).len() implies (a + b)[i] != x by {
        if i < a.len() {
            assert((a + b)[i] == a[i]);
        } else {
            assert((a + b)[i] == b[i - a.len()]);
        }
    }
}

/// Subranges preserve freeness.
pub proof fn lemma_free_subrange(s: Seq<u8>, x: u8, lo: int, hi: int)
    requires
        free_of(s, x),
        0 <= lo <= hi <= s.len(),
    ensures
        free_of(s.subrange(lo, hi), x),
{
    assert(forall|i: int| 0 <= i < hi - lo ==> #[trigger] s.subrange(lo, hi)[i] == s[lo + i]);
}

/// Counting distributes over concatenation.
pub proof fn lemma_count_concat(a: Seq<u8>, b: Seq<u8>, x: u8)
    ensures
        count_byte(a + b, x) == count_byte(a, x) + count_byte(b, x),
    decreases b.len(),
{
    if b.len() == 0 {
        assert(a + b =~= a);
    } else {
        lemma_count_concat(a, b.drop_last(), x);
        assert((a + b).drop_last() =~= a + b.drop_last());
        assert((a + b).last() == b.last());
    }
}

/// A sequence free of `x` counts zero occurrences.
pub proof fn lemma_count_free(s: Seq<u8>, x: u8)
    requires
        free_of(s, x),
    ensures
        count_byte(s, x) == 0,
    decreases s.len(),
{
    if s.len() > 0 {
        assert(forall|i: int| 0 <= i < s.drop_last().len() ==> #[trigger] s.drop_last()[i] == s[i]);
        lemma_count_free(s.drop_last(), x);
    }
}

/// Counting decomposes at the front.
pub proof fn lemma_count_first(s: Seq<u8>, x: u8)
    requires
        s.len() >= 1,
    ensures
        count_byte(s, x) == (if s[0] == x {
            1int
        } else {
            0int
        }) + count_byte(s.skip(1), x),
{
    let a = s.take(1);
    assert(s =~= a + s.skip(1));
    lemma_count_concat(a, s.skip(1), x);
    assert(a.drop_last() =~= Seq::<u8>::empty());
    assert(count_byte(Seq::<u8>::empty(), x) == 0);
    assert(a.last() == s[0]);
    assert(count_byte(a, x) == (if s[0] == x { 1int } else { 0int }));
}

/// Splitting yields at least one line, every line is newline-free, and the
/// line count is the newline count plus one.
pub proof fn lemma_split_lines_shape(s: Seq<u8>)
    ensures
        split_lines(s).len() == count_byte(s, ('\n' as u8)) + 1,
        all_free_of(split_lines(s), ('\n' as u8)),
    decreases s.len(),
{
    let nl = '\n' as u8;
    if s.len() == 0 {
        assert(split_lines(s) =~= seq![Seq::<u8>::empty()]);
        assert(free_of(split_lines(s)[0], nl));
    } else {
        lemma_split_lines_shape(s.skip(1));
        lemma_count_first(s, nl);
        let r = split_lines(s.skip(1));
        if s[0] == nl {
            assert(split_lines(s) =~= seq![Seq::<u8>::empty()] + r);
            assert forall|k: int| 0 <= k < split_lines(s).len() implies free_of(
                #[trigger] split_lines(s)[k],
                nl,
            ) by {
                if k > 0 {
                    assert(split_lines(s)[k] == r[k - 1]);
                }
            }
        } else {
            assert(split_lines(s) =~= seq![seq![s[0]] + r[0]] + r.skip(1));
            assert forall|k: int| 0 <= k < split_lines(s).len() implies free_of(
                #[trigger] split_lines(s)[k],
                nl,
            ) by {
                if k == 0 {
                    assert(free_of(r[0], nl));
                    let w = seq![s[0]] + r[0];
                    assert forall|i: int| 0 <= i < w.len() implies w[i] != nl by {
                        if i == 0 {
                            assert(w[0] == s[0]);
                        } else {
                            assert(w[i] == r[0][i - 1]);
                        }
                    }
                } else {
                    assert(split_lines(s)[k] == r.skip(1)[k - 1]);
                    assert(r.skip(1)[k - 1] == r[k]);
                }
            }
        }
    }
}

/// Joining `n` newline-free lines yields exactly `n - 1` newlines.
pub proof fn lemma_join_count(ls: Seq<Seq<u8>>)
    requires
        ls.len() >= 1,
        all_free_of(ls, ('\n' as u8)),
    ensures
        count_byte(join_lines(ls), ('\n' as u8)) == ls.len() - 1,
    decreases ls.len(),
{
    let nl = '\n' as u8;
    if ls.len() == 1 {
        lemma_count_free(ls[0], nl);
    } else {
        assert(all_free_of(ls.drop_last(), nl)) by {
            assert(forall|k: int|
                0 <= k < ls.drop_last().len() ==> #[trigger] ls.drop_last()[k] == ls[k]);
        }
        lemma_join_count(ls.drop_last());
        lemma_count_concat(join_lines(ls.drop_last()) + seq![nl], ls.last(), nl);
        lemma_count_concat(join_lines(ls.drop_last()), seq![nl], nl);
        assert(count_byte(seq![nl], nl) == 1) by {
            assert(seq![nl].drop_last() =~= Seq::<u8>::empty());
            assert(count_byte(Seq::<u8>::empty(), nl) == 0);
        }
        lemma_count_free(ls.last(), nl);
    }
}

/// Replacement distributes over a first occurrence: if no byte of `a` can
/// begin an occurrence of `pat`, the occurrence between `a` and `b` is the
/// leftmost one and is replaced, and replacement goes on in `b` alone.
pub proof fn lemma_replace_span(a: Seq<u8>, pat: Seq<u8>, rep: Seq<u8>, b: Seq<u8>)
    requires
        pat.len() >= 1,
        forall|i: int| 0 <= i < a.len() ==> #[trigger] a[i] != pat[0],
    ensures
        replace_all(a + pat + b, pat, rep) == a + rep + replace_all(b, pat, rep),
    decreases a.len(),
{
    let s = a + pat + b;
    if a.len() == 0 {
        assert(s =~= pat + b);
        assert(matches_at(s, pat, 0)) by {
            assert(forall|j: int| 0 <= j < pat.len() ==> s[0int + j] == #[trigger] pat[j]);
        }
        assert(s.skip(pat.len() as int) =~= b);
        assert(a + rep + replace_all(b, pat, rep) =~= rep + replace_all(b, pat, rep));
    } else {
        assert(s.len() > 0);
        assert(s[0] == a[0]);
        assert(!matches_at(s, pat, 0)) by {
            if matches_at(s, pat, 0) {
                assert(s[0int + 0] == pat[0]);
            }
        }
        assert(forall|i: int| 0 <= i < a.skip(1).len() ==> #[trigger] a.skip(1)[i] != pat[0]);
        lemma_replace_span(a.skip(1), pat, rep, b);
        assert(a.skip(1) + pat + b =~= s.skip(1));
        assert(replace_all(s, pat, rep) == seq![s[0]] + replace_all(s.skip(1), pat, rep));
        assert(seq![a[0]] + (a.skip(1) + rep + replace_all(b, pat, rep)) =~= a + rep + replace_all(
            b,
            pat,
            rep,
        ));
    }
}

/// One non-matching step of replacement: a position where the pattern's first
/// or second byte disagrees is copied through unchanged.
pub proof fn lemma_replace_step(s: Seq<u8>, pat: Seq<u8>, rep: Seq<u8>)
    requires
        s.len() >= 1,
        pat.len() >= 1,
        s[0] != pat[0] || (2 <= pat.len() && 2 <= s.len() && s[1] != pat[1]),
    ensures
        replace_all(s, pat, rep) == seq![s[0]] + replace_all(s.skip(1), pat, rep),
{
    assert(!matches_at(s, pat, 0)) by {
        if matches_at(s, pat, 0) {
            assert(s[0int + 0] == pat[0]);
            if 2 <= pat.len() {
                assert(s[0int + 1] == pat[1]);
            }
        }
    }
}

/// Split on `'\n'`: a sequence of lines, none of which contains `'\n'`.
/// The empty sequence splits to one empty line.
pub open spec fn split_lines(s: Seq<u8>) -> Seq<Seq<u8>>
    decreases s.len(),
{
    if s.len() == 0 {
        seq![Seq::<u8>::empty()]
    } else if s[0] == ('\n' as u8) {
        seq![Seq::<u8>::empty()] + split_lines(s.skip(1))
    } else {
        let r = split_lines(s.skip(1));
        seq![seq![s[0]] + r[0]] + r.skip(1)
    }
}

/// Join lines with `'\n'` (inverse of `split_lines` for newline-free lines).
pub open spec fn join_lines(ls: Seq<Seq<u8>>) -> Seq<u8>
    decreases ls.len(),
{
    if ls.len() == 0 {
        Seq::<u8>::empty()
    } else if ls.len() == 1 {
        ls[0]
    } else {
        join_lines(ls.drop_last()) + seq![('\n' as u8)] + ls.last()
    }
}

/// A newline-free sequence splits to itself as a single line, and a newline
/// after such a prefix cuts exactly there.
pub proof fn lemma_split_prefix(a: Seq<u8>, t: Seq<u8>)
    requires
        forall|i: int| 0 <= i < a.len() ==> a[i] != ('\n' as u8),
    ensures
        split_lines(a) =~= seq![a],
        split_lines(a + seq![('\n' as u8)] + t) =~= seq![a] + split_lines(t),
    decreases a.len(),
{
    let nl = '\n' as u8;
    if a.len() == 0 {
        assert(a =~= Seq::<u8>::empty());
        assert(split_lines(a) =~= seq![a]);
        assert(a + seq![nl] + t =~= seq![nl] + t);
        assert((seq![nl] + t)[0] == nl);
        assert((seq![nl] + t).skip(1) =~= t);
        assert(split_lines(seq![nl] + t) =~= seq![Seq::<u8>::empty()] + split_lines(t));
        assert(seq![Seq::<u8>::empty()] + split_lines(t) =~= seq![a] + split_lines(t));
    } else {
        let a1 = a.skip(1);
        lemma_split_prefix(a1, t);
        // split_lines(a): first byte is not a newline
        assert(split_lines(a1) =~= seq![a1]);
        assert(seq![seq![a[0]] + a1] + split_lines(a1).skip(1) =~= seq![a]) by {
            assert(seq![a[0]] + a1 =~= a);
            assert(split_lines(a1).skip(1) =~= Seq::<Seq<u8>>::empty());
        }
        // split_lines(a + [nl] + t)
        let w = a + seq![nl] + t;
        assert(w[0] == a[0]);
        assert(w.skip(1) =~= a1 + seq![nl] + t);
        let r = split_lines(a1 + seq![nl] + t);
        assert(r =~= seq![a1] + split_lines(t));
        assert(r[0] == a1);
        assert(split_lines(w) =~= seq![seq![w[0]] + r[0]] + r.skip(1));
        assert(seq![w[0]] + r[0] =~= a);
        assert(r.skip(1) =~= split_lines(t));
        assert(seq![a] + split_lines(t) =~= split_lines(w));
    }
}

/// One step of the split loop: cutting at a newline.
proof fn lemma_split_step_nl(s: Seq<u8>, cur: Seq<u8>, i: int)
    requires
        0 <= i < s.len(),
        s[i] == ('\n' as u8),
        forall|k: int| 0 <= k < cur.len() ==> cur[k] != ('\n' as u8),
    ensures
        split_lines(cur + s.skip(i)) =~~= seq![cur] + split_lines(s.skip(i + 1)),
{
    let nl = '\n' as u8;
    assert(s.skip(i) =~= seq![nl] + s.skip(i + 1));
    assert(cur + s.skip(i) =~= cur + seq![nl] + s.skip(i + 1));
    lemma_split_prefix(cur, s.skip(i + 1));
}

/// One step of the split loop: extending the current line.
proof fn lemma_split_step_ch(s: Seq<u8>, cur: Seq<u8>, i: int)
    requires
        0 <= i < s.len(),
    ensures
        cur.push(s[i]) + s.skip(i + 1) =~= cur + s.skip(i),
{
    assert(s.skip(i) =~= seq![s[i]] + s.skip(i + 1));
}

/// Executable split on `'\n'`.
pub fn split_lines_bytes(s: &[u8]) -> (r: Vec<Vec<u8>>)
    ensures
        r.deep_view() == split_lines(s@),
{
    let nl: u8 = '\n' as u8;
    assert(nl == ('\n' as u8));
    let mut res: Vec<Vec<u8>> = Vec::new();
    let mut cur: Vec<u8> = Vec::new();
    let mut i: usize = 0;
    proof {
        assert(cur@ + s@.skip(0) =~= s@);
        assert(res.deep_view() =~= Seq::<Seq<u8>>::empty());
    }
    while i < s.len()
        invariant
            0 <= i <= s@.len(),
            forall|k: int| 0 <= k < cur@.len() ==> cur@[k] != ('\n' as u8),
            split_lines(s@) =~~= res.deep_view() + split_lines(cur@ + s@.skip(i as int)),
        decreases s@.len() - i,
    {
        if s[i] == nl {
            proof {
                lemma_split_step_nl(s@, cur@, i as int);
            }
            let ghost old_res = res.deep_view();
            let ghost old_cur = cur@;
            res.push(cur);
            proof {
                assert(res.deep_view() =~~= old_res + seq![old_cur]);
                assert(old_res + (seq![old_cur] + split_lines(s@.skip(i + 1))) =~~=
                res.deep_view() + split_lines(s@.skip(i + 1)));
            }
            cur = Vec::new();
            proof {
                assert(cur@ + s@.skip(i + 1) =~= s@.skip(i + 1));
            }
        } else {
            let ghost old_cur = cur@;
            cur.push(s[i]);
            proof {
                lemma_split_step_ch(s@, old_cur, i as int);
                assert(cur@ + s@.skip(i + 1) =~= old_cur + s@.skip(i as int));
            }
        }
        i = i + 1;
    }
    proof {
        assert(s@.skip(i as int) =~= Seq::<u8>::empty());
        assert(cur@ + s@.skip(i as int) =~= cur@);
        lemma_split_prefix(cur@, Seq::<u8>::empty());
    }
    let ghost old_res = res.deep_view();
    res.push(cur);
    proof {
        assert(res.deep_view() =~~= old_res + seq![cur@]);
        assert(old_res + split_lines(cur@) =~~= res.deep_view());
        assert(res.deep_view() =~~= split_lines(s@));
    }
    res
}

/// Executable join with `'\n'`.
pub fn join_lines_bytes(ls: &Vec<Vec<u8>>) -> (r: Vec<u8>)
    ensures
        r@ == join_lines(ls.deep_view()),
{
    let mut out: Vec<u8> = Vec::new();
    let mut k: usize = 0;
    while k < ls.len()
        invariant
            0 <= k <= ls@.len(),
            ls.deep_view().len() == ls@.len(),
            out@ =~= join_lines(ls.deep_view().take(k as int)),
        decreases ls@.len() - k,
    {
        let ghost d = ls.deep_view();
        if k > 0 {
            out.push('\n' as u8);
        }
        let ghost mid = out@;
        out.extend_from_slice(ls[k].as_slice());
        proof {
            assert(ls[k as int]@ =~= d[k as int]);
            let t1 = d.take(k + 1);
            assert(t1.len() == k + 1);
            if k == 0 {
                assert(t1 =~= seq![d[0]]);
                assert(join_lines(t1) == t1[0]);
                assert(out@ =~= d[0]);
            } else {
                assert(t1.drop_last() =~= d.take(k as int));
                assert(t1.last() == d[k as int]);
                assert(join_lines(t1) == join_lines(d.take(k as int)) + seq![('\n' as u8)]
                    + d[k as int]);
                assert(out@ =~= join_lines(d.take(k as int)) + seq![('\n' as u8)] + d[k as int]);
            }
        }
        k = k + 1;
    }
    proof {
        if ls@.len() == 0 {
            assert(ls.deep_view().take(0) =~= ls.deep_view());
        } else {
            assert(ls.deep_view().take(ls@.len() as int) =~= ls.deep_view());
        }
    }
    out
}

} // verus!
