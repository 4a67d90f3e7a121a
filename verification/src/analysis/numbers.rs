//! Decimal numbers as research notes write them ("97.2", "3.5"), read and
//! compared exactly: a number is its digits read as a whole number over a
//! power of ten, and large ones are held digit by digit.
use vstd::prelude::*;
use crate::text::{lowercase, alphanumeric, whitespace, to_lower, is_alnum, is_ws, chars_of, string_of};
use crate::mcp::repair::{collect, lemma_collect_step, lemma_take_all};

verus! {

broadcast use vstd::seq_lib::group_seq_properties;

/// Ten to the power `n`.
pub open spec fn pow10(n: nat) -> nat
    decreases n,
{
    if n == 0 { 1 } else { 10 * pow10((n - 1) as nat) }
}

/// The number that the decimal digits `ds` write, most significant first.
pub open spec fn digits_value(ds: Seq<u8>) -> nat
    decreases ds.len(),
{
    if ds.len() == 0 { 0 } else { digits_value(ds.drop_last()) * 10 + (ds.last() as nat) }
}

/// Every entry of `ds` is a decimal digit.
pub open spec fn all_digits(ds: Seq<u8>) -> bool {
    forall|i: int| 0 <= i < ds.len() ==> #[trigger] ds[i] < 10
}

/// `n` zeros.
pub open spec fn zeros(n: nat) -> Seq<u8> {
    Seq::new(n, |i: int| 0u8)
}

pub proof fn lemma_pow10_pos(n: nat)
    ensures
        pow10(n) >= 1,
    decreases n,
{
    if n > 0 {
        lemma_pow10_pos((n - 1) as nat);
    }
}

pub proof fn lemma_pow10_add(a: nat, b: nat)
    ensures
        pow10(a + b) == pow10(a) * pow10(b),
    decreases b,
{
    if b > 0 {
        let c = (b - 1) as nat;
        lemma_pow10_add(a, c);
        assert(pow10(a + b) == 10 * pow10(a + c));
        assert(pow10(b) == 10 * pow10(c));
        let x = pow10(a);
        let y = pow10(c);
        assert(10 * (x * y) == x * (10 * y)) by (nonlinear_arith);
        assert(pow10(a + b) == 10 * (x * y));
        assert(pow10(a + b) == x * (10 * y));
        assert(pow10(a + b) == x * pow10(b));
    } else {
        assert(pow10(0) == 1);
        assert(a + b == a);
    }
}

/// The digits `ds` write a number below ten to the power of their count.
pub proof fn lemma_value_bound(ds: Seq<u8>)
    requires
        all_digits(ds),
    ensures
        digits_value(ds) < pow10(ds.len()),
    decreases ds.len(),
{
    if ds.len() > 0 {
        let t = ds.drop_last();
        lemma_value_bound(t);
        let v = digits_value(t);
        let p = pow10(t.len());
        let d = ds.last() as nat;
        assert(d < 10);
        assert(v * 10 + d < 10 * p) by (nonlinear_arith)
            requires
                v < p,
                d < 10,
        ;
    }
}

/// Splitting the digits after the first `i`: the number is the one the
/// first `i` write, shifted, plus the one the rest write.
pub proof fn lemma_value_split(ds: Seq<u8>, i: int)
    requires
        0 <= i <= ds.len(),
    ensures
        digits_value(ds) == digits_value(ds.take(i)) * pow10((ds.len() - i) as nat) + digits_value(ds.skip(i)),
    decreases ds.len() - i,
{
    if i == ds.len() {
        assert(ds.take(i) =~= ds);
        assert(ds.skip(i) =~= Seq::<u8>::empty());
        assert(digits_value(ds.skip(i)) == 0);
        assert(pow10(0) == 1);
        assert(ds.len() - i == 0);
        assert(digits_value(ds.take(i)) * pow10(0) == digits_value(ds.take(i)));
    } else {
        let t = ds.drop_last();
        lemma_value_split(t, i);
        let n = ds.len();
        let d = ds.last() as nat;
        assert(t.take(i) =~= ds.take(i));
        assert(ds.skip(i).drop_last() =~= t.skip(i));
        assert(ds.skip(i).last() == ds.last());
        let a = digits_value(ds.take(i));
        let p = pow10((n - 1 - i) as nat);
        let r = digits_value(t.skip(i));
        assert(digits_value(t) == a * p + r);
        assert(digits_value(ds) == digits_value(t) * 10 + d);
        assert(digits_value(ds.skip(i)) == r * 10 + d);
        assert(pow10((n - i) as nat) == 10 * p);
        assert((a * p + r) * 10 + d == a * (10 * p) + (r * 10 + d)) by (nonlinear_arith);
    }
}

/// Zeros in front change nothing.
pub proof fn lemma_leading_zeros(k: nat, ds: Seq<u8>)
    ensures
        digits_value(zeros(k) + ds) == digits_value(ds),
    decreases ds.len(),
{
    if ds.len() == 0 {
        lemma_zeros_value(k);
        assert(zeros(k) + ds =~= zeros(k));
    } else {
        lemma_leading_zeros(k, ds.drop_last());
        assert((zeros(k) + ds).drop_last() =~= zeros(k) + ds.drop_last());
    }
}

pub proof fn lemma_zeros_value(k: nat)
    ensures
        digits_value(zeros(k)) == 0,
    decreases k,
{
    if k > 0 {
        lemma_zeros_value((k - 1) as nat);
        assert(zeros(k).drop_last() =~= zeros((k - 1) as nat));
    }
}

/// Zeros after the digits multiply by a power of ten.
pub proof fn lemma_trailing_zeros(ds: Seq<u8>, k: nat)
    ensures
        digits_value(ds + zeros(k)) == digits_value(ds) * pow10(k),
    decreases k,
{
    if k == 0 {
        assert(ds + zeros(k) =~= ds);
        assert(pow10(0) == 1);
    } else {
        let c = (k - 1) as nat;
        lemma_trailing_zeros(ds, c);
        let s = ds + zeros(k);
        assert(s.drop_last() =~= ds + zeros(c));
        assert(s.last() == 0);
        assert(digits_value(s) == digits_value(ds + zeros(c)) * 10);
        let v = digits_value(ds);
        assert(pow10(k) == 10 * pow10(c));
        assert(v * pow10(c) * 10 == v * (10 * pow10(c))) by (nonlinear_arith);
    }
}

/// One digit in front of `r` adds it at the place of `r`'s length.
pub proof fn lemma_value_prepend(d: u8, r: Seq<u8>)
    ensures
        digits_value(seq![d] + r) == d * pow10(r.len()) + digits_value(r),
{
    let s = seq![d] + r;
    lemma_value_split(s, 1);
    assert(s.take(1) =~= seq![d]);
    assert(s.skip(1) =~= r);
    assert(seq![d].drop_last() =~= Seq::<u8>::empty());
    assert(digits_value(seq![d]) == digits_value(Seq::<u8>::empty()) * 10 + (d as nat));
    assert(s.len() - 1 == r.len());
}

/// `k` times the number the digits `ds` write, as digits.
pub fn mul_small(ds: &Vec<u8>, k: u8) -> (r: Vec<u8>)
    requires
        all_digits(ds@),
        k <= 100,
    ensures
        all_digits(r@),
        digits_value(r@) == k * digits_value(ds@),
{
    let mut r: Vec<u8> = Vec::new();
    let mut carry: u32 = 0;
    let mut i: usize = ds.len();
    proof {
        assert(ds@.skip(ds@.len() as int) =~= Seq::<u8>::empty());
        assert(r@ =~= Seq::<u8>::empty());
        assert(digits_value(Seq::<u8>::empty()) == 0);
        assert(pow10(0) == 1);
        assert(k * 0 == 0) by (nonlinear_arith);
    }
    while i > 0
        invariant
            all_digits(ds@),
            k <= 100,
            i <= ds@.len(),
            carry < 100,
            all_digits(r@),
            r@.len() == ds@.len() - i,
            digits_value(r@) + carry * pow10(r@.len()) == k * digits_value(ds@.skip(i as int)),
        decreases i,
    {
        let d = ds[i - 1];
        proof {
            assert(d < 10);
            assert((d as u32) * (k as u32) <= 900) by (nonlinear_arith)
                requires
                    d < 10,
                    k <= 100,
            ;
        }
        let x: u32 = d as u32 * k as u32 + carry;
        let low = (x % 10) as u8;
        let ghost r0 = r@;
        let ghost c0 = carry as nat;
        r.insert(0, low);
        carry = x / 10;
        proof {
            assert(r@ =~= seq![low] + r0);
            lemma_value_prepend(low, r0);
            let p = pow10(r0.len());
            assert(pow10(r@.len()) == 10 * p);
            let s = ds@.skip(i - 1);
            assert(s.skip(1) =~= ds@.skip(i as int));
            assert(s.take(1) =~= seq![d]);
            lemma_value_split(s, 1);
            assert(seq![d].drop_last() =~= Seq::<u8>::empty());
            assert(seq![d].last() == d);
            assert(digits_value(Seq::<u8>::empty()) == 0);
            assert(digits_value(seq![d]) == digits_value(seq![d].drop_last()) * 10 + (d as nat));
            assert(digits_value(seq![d]) == d);
            assert(digits_value(s) == d * pow10(r0.len()) + digits_value(ds@.skip(i as int)));
            assert(x == d * k + c0);
            assert(x == low + 10 * carry);
            let v = digits_value(r0);
            assert(low * p + v + carry * (10 * p) == v + c0 * p + k * d * p) by (nonlinear_arith)
                requires
                    low + 10 * carry == d * k + c0,
            ;
            assert(k * digits_value(s) == k * d * p + k * digits_value(ds@.skip(i as int))) by (nonlinear_arith)
                requires
                    digits_value(s) == d * p + digits_value(ds@.skip(i as int)),
            ;
        }
        i = i - 1;
    }
    proof { assert(ds@.skip(0) =~= ds@); }
    while carry > 0
        invariant
            all_digits(r@),
            digits_value(r@) + carry * pow10(r@.len()) == k * digits_value(ds@),
        decreases carry,
    {
        let low = (carry % 10) as u8;
        let ghost r0 = r@;
        let ghost c0 = carry as nat;
        r.insert(0, low);
        carry = carry / 10;
        proof {
            assert(r@ =~= seq![low] + r0);
            lemma_value_prepend(low, r0);
            let p = pow10(r0.len());
            assert(pow10(r@.len()) == 10 * p);
            let v = digits_value(r0);
            assert(low * p + v + carry * (10 * p) == v + c0 * p) by (nonlinear_arith)
                requires
                    low + 10 * carry == c0,
            ;
        }
    }
    r
}

/// The digits `ds` followed by `k` zeros.
pub fn shifted(ds: &Vec<u8>, k: usize) -> (r: Vec<u8>)
    requires
        all_digits(ds@),
    ensures
        all_digits(r@),
        r@ == ds@ + zeros(k as nat),
        digits_value(r@) == digits_value(ds@) * pow10(k as nat),
{
    let mut r = ds.clone();
    proof { assert(r@ =~= ds@); }
    let mut j: usize = 0;
    while j < k
        invariant
            j <= k,
            r@ == ds@ + zeros(j as nat),
        decreases k - j,
    {
        r.push(0);
        proof { assert(r@ =~= ds@ + zeros((j + 1) as nat)); }
        j = j + 1;
    }
    proof { lemma_trailing_zeros(ds@, k as nat); }
    r
}

/// Whether the number the digits `a` write exceeds the one `b` writes.
pub fn digits_gt(a: &Vec<u8>, b: &Vec<u8>) -> (r: bool)
    requires
        all_digits(a@),
        all_digits(b@),
    ensures
        r == (digits_value(a@) > digits_value(b@)),
{
    let n: usize = if a.len() < b.len() { b.len() } else { a.len() };
    let pa = padded(a, n);
    let pb = padded(b, n);
    same_length_gt(&pa, &pb)
}

fn same_length_gt(pa: &Vec<u8>, pb: &Vec<u8>) -> (r: bool)
    requires
        pa@.len() == pb@.len(),
        all_digits(pa@),
        all_digits(pb@),
    ensures
        r == (digits_value(pa@) > digits_value(pb@)),
{
    let n = pa.len();
    let mut j: usize = 0;
    while j < n
        invariant
            n == pa@.len(),
            pa@.len() == pb@.len(),
            all_digits(pa@),
            all_digits(pb@),
            j <= n,
            pa@.take(j as int) == pb@.take(j as int),
        decreases n - j,
    {
        if pa[j] != pb[j] {
            proof { lemma_first_difference(pa@, pb@, j as int); }
            return pa[j] > pb[j];
        }
        proof { assert(pa@.take(j + 1) =~= pb@.take(j + 1)); }
        j = j + 1;
    }
    proof {
        assert(pa@ =~= pa@.take(n as int));
        assert(pb@ =~= pb@.take(n as int));
    }
    false
}

proof fn lemma_first_difference(a: Seq<u8>, b: Seq<u8>, j: int)
    requires
        a.len() == b.len(),
        all_digits(a),
        all_digits(b),
        0 <= j < a.len(),
        a.take(j) == b.take(j),
        a[j] != b[j],
    ensures
        (digits_value(a) > digits_value(b)) == (a[j] > b[j]),
{
    let n = a.len();
    let q = pow10((n - j - 1) as nat);
    lemma_value_split(a, j + 1);
    lemma_value_split(b, j + 1);
    assert(a.take(j + 1).drop_last() =~= a.take(j));
    assert(b.take(j + 1).drop_last() =~= b.take(j));
    let h = digits_value(a.take(j));
    assert(digits_value(b.take(j)) == h);
    let ra = digits_value(a.skip(j + 1));
    let rb = digits_value(b.skip(j + 1));
    assert forall|i: int| 0 <= i < a.skip(j + 1).len() implies #[trigger] a.skip(j + 1)[i] < 10 by {
        assert(a.skip(j + 1)[i] == a[j + 1 + i]);
    }
    assert forall|i: int| 0 <= i < b.skip(j + 1).len() implies #[trigger] b.skip(j + 1)[i] < 10 by {
        assert(b.skip(j + 1)[i] == b[j + 1 + i]);
    }
    lemma_value_bound(a.skip(j + 1));
    lemma_value_bound(b.skip(j + 1));
    let da = a[j] as nat;
    let db = b[j] as nat;
    assert(digits_value(a) == (h * 10 + da) * q + ra);
    assert(digits_value(b) == (h * 10 + db) * q + rb);
    if da > db {
        assert((h * 10 + da) * q + ra > (h * 10 + db) * q + rb) by (nonlinear_arith)
            requires
                da >= db + 1,
                rb < q,
                ra >= 0,
        ;
    } else {
        assert((h * 10 + db) * q + rb > (h * 10 + da) * q + ra) by (nonlinear_arith)
            requires
                db >= da + 1,
                ra < q,
                rb >= 0,
        ;
    }
}

/// The digits `ds` with zeros in front up to `n` digits.
fn padded(ds: &Vec<u8>, n: usize) -> (r: Vec<u8>)
    requires
        all_digits(ds@),
        ds@.len() <= n,
    ensures
        all_digits(r@),
        r@.len() == n,
        digits_value(r@) == digits_value(ds@),
{
    let mut r: Vec<u8> = Vec::new();
    let k = n - ds.len();
    let mut j: usize = 0;
    while j < k
        invariant
            j <= k,
            r@ == zeros(j as nat),
        decreases k - j,
    {
        r.push(0);
        proof { assert(r@ =~= zeros((j + 1) as nat)); }
        j = j + 1;
    }
    let mut i: usize = 0;
    while i < ds.len()
        invariant
            all_digits(ds@),
            i <= ds@.len(),
            r@ == zeros(k as nat) + ds@.take(i as int),
        decreases ds@.len() - i,
    {
        r.push(ds[i]);
        proof { assert(r@ =~= zeros(k as nat) + ds@.take(i + 1)); }
        i = i + 1;
    }
    proof {
        assert(ds@.take(i as int) =~= ds@);
        lemma_leading_zeros(k as nat, ds@);
    }
    r
}

// ---------------------------------------------------------------- words

/// The words of `s` split at whitespace, and the word still open at its
/// end.
pub open spec fn split_ws(s: Seq<char>) -> (Seq<Seq<char>>, Seq<char>)
    decreases s.len(),
{
    if s.len() == 0 {
        (Seq::empty(), Seq::empty())
    } else {
        let (ws, cur) = split_ws(s.drop_last());
        let c = s.last();
        if whitespace(c) {
            if cur.len() > 0 { (ws.push(cur), Seq::empty()) } else { (ws, Seq::empty()) }
        } else {
            (ws, cur.push(c))
        }
    }
}

/// The whitespace-separated words of `s`, as `str::split_whitespace`
/// gives them.
pub open spec fn words_of(s: Seq<char>) -> Seq<Seq<char>> {
    let (ws, cur) = split_ws(s);
    if cur.len() > 0 { ws.push(cur) } else { ws }
}

/// The views of a list of character lists.
pub open spec fn char_views(v: Seq<Vec<char>>) -> Seq<Seq<char>> {
    v.map_values(|w: Vec<char>| w@)
}

/// The words of `s`.
pub fn split_words(s: &Vec<char>) -> (r: Vec<Vec<char>>)
    ensures
        char_views(r@) == words_of(s@),
{
    let mut ws: Vec<Vec<char>> = Vec::new();
    let mut cur: Vec<char> = Vec::new();
    let mut i: usize = 0;
    while i < s.len()
        invariant
            i <= s@.len(),
            (char_views(ws@), cur@) == split_ws(s@.take(i as int)),
        decreases s@.len() - i,
    {
        proof { assert(s@.take(i + 1).drop_last() =~= s@.take(i as int)); }
        let c = s[i];
        if is_ws(c) {
            if cur.len() > 0 {
                let ghost before = char_views(ws@);
                ws.push(cur);
                proof { assert(char_views(ws@) =~= before.push(ws@.last()@)); }
            }
            cur = Vec::new();
            proof { assert(cur@ =~= Seq::<char>::empty()); }
        } else {
            cur.push(c);
        }
        i = i + 1;
    }
    proof { lemma_take_all(s@); }
    if cur.len() > 0 {
        let ghost before = char_views(ws@);
        ws.push(cur);
        proof { assert(char_views(ws@) =~= before.push(ws@.last()@)); }
    }
    ws
}

/// The index of the first alphanumeric character of `s` (its length when
/// there is none).
pub open spec fn first_alnum(s: Seq<char>) -> int
    decreases s.len(),
{
    if s.len() == 0 {
        0
    } else {
        let k = first_alnum(s.drop_last());
        if k < s.len() - 1 { k } else if alphanumeric(s.last()) { s.len() - 1 } else { s.len() as int }
    }
}

/// The index just after the last alphanumeric character of `s` (zero when
/// there is none).
pub open spec fn last_alnum_end(s: Seq<char>) -> int
    decreases s.len(),
{
    if s.len() == 0 { 0 } else if alphanumeric(s.last()) { s.len() as int } else { last_alnum_end(s.drop_last()) }
}

/// `s` without the characters that are not alphanumeric at either end, as
/// `str::trim_matches` with that test leaves it.
pub open spec fn trim_alnum(s: Seq<char>) -> Seq<char> {
    if first_alnum(s) == s.len() { Seq::empty() } else { s.subrange(first_alnum(s), last_alnum_end(s)) }
}

proof fn lemma_first_alnum(s: Seq<char>, a: int)
    requires
        0 <= a <= s.len(),
        forall|k: int| 0 <= k < a ==> !alphanumeric(#[trigger] s[k]),
        a == s.len() || alphanumeric(s[a]),
    ensures
        first_alnum(s) == a,
    decreases s.len(),
{
    if s.len() > 0 {
        let t = s.drop_last();
        if a < s.len() {
            if a < t.len() {
                assert forall|k: int| 0 <= k < a implies !alphanumeric(#[trigger] t[k]) by { assert(t[k] == s[k]); }
                assert(t[a] == s[a]);
                lemma_first_alnum(t, a);
            } else {
                assert forall|k: int| 0 <= k < t.len() implies !alphanumeric(#[trigger] t[k]) by { assert(t[k] == s[k]); }
                lemma_first_alnum(t, t.len() as int);
            }
        } else {
            assert forall|k: int| 0 <= k < t.len() implies !alphanumeric(#[trigger] t[k]) by { assert(t[k] == s[k]); }
            lemma_first_alnum(t, t.len() as int);
        }
    }
}

proof fn lemma_last_alnum_end(s: Seq<char>, b: int)
    requires
        0 <= b <= s.len(),
        forall|k: int| b <= k < s.len() ==> !alphanumeric(#[trigger] s[k]),
        b == 0 || alphanumeric(s[b - 1]),
    ensures
        last_alnum_end(s) == b,
    decreases s.len(),
{
    if s.len() > 0 && b < s.len() {
        let t = s.drop_last();
        assert(!alphanumeric(s[s.len() - 1]));
        assert forall|k: int| b <= k < t.len() implies !alphanumeric(#[trigger] t[k]) by { assert(t[k] == s[k]); }
        if b > 0 {
            assert(t[b - 1] == s[b - 1]);
        }
        lemma_last_alnum_end(t, b);
    }
}

/// `s` without its non-alphanumeric ends.
pub fn trim_alnum_exec(s: &Vec<char>) -> (r: Vec<char>)
    ensures
        r@ == trim_alnum(s@),
{
    let mut a: usize = 0;
    while a < s.len() && !is_alnum(s[a])
        invariant
            a <= s@.len(),
            forall|k: int| 0 <= k < a ==> !alphanumeric(#[trigger] s@[k]),
        decreases s@.len() - a,
    {
        a = a + 1;
    }
    proof { lemma_first_alnum(s@, a as int); }
    if a == s.len() {
        return Vec::new();
    }
    let mut b: usize = s.len();
    while b > a && !is_alnum(s[b - 1])
        invariant
            a < s@.len(),
            alphanumeric(s@[a as int]),
            a <= b <= s@.len(),
            forall|k: int| b <= k < s@.len() ==> !alphanumeric(#[trigger] s@[k]),
        decreases b - a,
    {
        b = b - 1;
    }
    proof {
        if b == a {
            assert(false);
        }
        lemma_last_alnum_end(s@, b as int);
    }
    let mut r: Vec<char> = Vec::new();
    let mut i = a;
    while i < b
        invariant
            a <= i <= b <= s@.len(),
            r@ == s@.subrange(a as int, i as int),
        decreases b - i,
    {
        r.push(s[i]);
        i = i + 1;
        proof { assert(r@ =~= s@.subrange(a as int, i as int)); }
    }
    r
}

/// How many bytes UTF-8 gives a character.
pub open spec fn char_bytes(c: char) -> nat {
    if (c as u32) < 0x80 { 1 } else if (c as u32) < 0x800 { 2 } else if (c as u32) < 0x10000 { 3 } else { 4 }
}

/// How many bytes UTF-8 gives `s`: what `str::len` counts.
pub open spec fn utf8_len(s: Seq<char>) -> nat
    decreases s.len(),
{
    if s.len() == 0 { 0 } else { utf8_len(s.drop_last()) + char_bytes(s.last()) }
}

/// Whether `s` takes at least `cap` bytes in UTF-8.
pub fn utf8_len_at_least(s: &Vec<char>, cap: usize) -> (r: bool)
    ensures
        r == (utf8_len(s@) >= cap),
{
    let mut n: u128 = 0;
    let mut i: usize = 0;
    while i < s.len()
        invariant
            i <= s@.len(),
            n == utf8_len(s@.take(i as int)),
            n <= cap as u128 + 4,
        decreases s@.len() - i,
    {
        proof { assert(s@.take(i + 1).drop_last() =~= s@.take(i as int)); }
        if n >= cap as u128 {
            proof { lemma_utf8_len_mono(s@, i as int); }
            return true;
        }
        let c = s[i] as u32;
        let b: u128 = if c < 0x80 { 1 } else if c < 0x800 { 2 } else if c < 0x10000 { 3 } else { 4 };
        n = n + b;
        i = i + 1;
    }
    proof { lemma_take_all(s@); }
    n >= cap as u128
}

/// How many bytes UTF-8 gives `s`, when that is under `cap`.
pub fn utf8_len_below(s: &Vec<char>, cap: usize) -> (r: usize)
    requires
        utf8_len(s@) < cap,
    ensures
        r == utf8_len(s@),
{
    let mut n: usize = 0;
    let mut i: usize = 0;
    while i < s.len()
        invariant
            i <= s@.len(),
            n == utf8_len(s@.take(i as int)),
            utf8_len(s@) < cap,
        decreases s@.len() - i,
    {
        proof {
            assert(s@.take(i + 1).drop_last() =~= s@.take(i as int));
            lemma_utf8_len_mono(s@, i + 1);
        }
        let c = s[i] as u32;
        let b: usize = if c < 0x80 { 1 } else if c < 0x800 { 2 } else if c < 0x10000 { 3 } else { 4 };
        n = n + b;
        i = i + 1;
    }
    proof { lemma_take_all(s@); }
    n
}

proof fn lemma_utf8_len_mono(s: Seq<char>, i: int)
    requires
        0 <= i <= s.len(),
    ensures
        utf8_len(s.take(i)) <= utf8_len(s),
    decreases s.len() - i,
{
    if i < s.len() {
        lemma_utf8_len_mono(s, i + 1);
        assert(s.take(i + 1).drop_last() =~= s.take(i));
    } else {
        assert(s.take(i) =~= s);
    }
}

// ---------------------------------------------------------------- numbers in a text

/// A decimal digit character.
pub open spec fn is_digit_char(c: char) -> bool {
    '0' <= c && c <= '9'
}

/// A character that can be part of a number: a digit or a point.
pub open spec fn num_char() -> spec_fn(char) -> bool {
    |c: char| is_digit_char(c) || c == '.'
}

/// The value of a digit character.
pub open spec fn digit_of(c: char) -> u8 {
    ((c as u32) - 48) as u8
}

/// The number characters of `t` read left to right: their digit values,
/// how many points there were, and how many digits followed the last
/// point (none when there was no point).
pub open spec fn number_parts(t: Seq<char>) -> (Seq<u8>, nat, nat)
    decreases t.len(),
{
    if t.len() == 0 {
        (Seq::empty(), 0, 0)
    } else {
        let (ds, points, frac) = number_parts(t.drop_last());
        let c = t.last();
        if is_digit_char(c) {
            (ds.push(digit_of(c)), points, if points > 0 { frac + 1 } else { 0 })
        } else if c == '.' {
            (ds, points + 1, 0)
        } else {
            (ds, points, frac)
        }
    }
}

/// The number written in word `w`, once its characters that are neither
/// digits nor points are dropped: its digits and the number of them after
/// the point, when what is left reads as a number (at most one point and
/// at least one digit, as `str::parse::<f64>` reads such text).
pub open spec fn number_in_word(w: Seq<char>) -> Option<(Seq<u8>, nat)> {
    let (ds, points, frac) = number_parts(w);
    if points <= 1 && ds.len() >= 1 { Some((ds, frac)) } else { None }
}

/// The number that digits `ds` with `frac` of them after the point write
/// is above one.
pub open spec fn above_one(ds: Seq<u8>, frac: nat) -> bool {
    digits_value(ds) > pow10(frac)
}

/// The words around word `i` of `ws` (two before, two after, itself
/// included), lowercased, stripped of non-alphanumeric ends, and kept when
/// at least two bytes long.
pub open spec fn context_of(ws: Seq<Seq<char>>, i: int) -> Seq<Seq<char>> {
    let lo = if i >= 2 { i - 2 } else { 0 };
    let hi = if i + 3 < ws.len() { i + 3 } else { ws.len() as int };
    ws.subrange(lo, hi).map_values(context_word()).filter(long_word())
}

/// A word as it stands in a context: lowercased, without non-alphanumeric
/// ends.
pub open spec fn context_word() -> spec_fn(Seq<char>) -> Seq<char> {
    |w: Seq<char>| trim_alnum(lowercase(w))
}

/// Picks out the words at least two bytes long.
pub open spec fn long_word() -> spec_fn(Seq<char>) -> bool {
    |w: Seq<char>| utf8_len(w) >= 2
}

/// Word `i` of `ws` as a number above one, with its context.
pub open spec fn number_at(ws: Seq<Seq<char>>) -> spec_fn(int) -> Option<(Seq<u8>, nat, Seq<Seq<char>>)> {
    |i: int| match number_in_word(ws[i]) {
        Some((ds, frac)) => if above_one(ds, frac) { Some((ds, frac, context_of(ws, i))) } else { None },
        None => None,
    }
}

/// The numbers above one that text `t` writes, in order, each with its
/// context.
pub open spec fn numbers_in(t: Seq<char>) -> Seq<(Seq<u8>, nat, Seq<Seq<char>>)> {
    let ws = words_of(t);
    collect(Seq::new(ws.len(), |i: int| i), number_at(ws))
}

/// A number found in a text, with the words around it.
pub struct NumberInText {
    pub digits: Vec<u8>,
    pub frac: usize,
    pub context: Vec<Vec<char>>,
}

impl NumberInText {
    pub open spec fn view(&self) -> (Seq<u8>, nat, Seq<Seq<char>>) {
        (self.digits@, self.frac as nat, char_views(self.context@))
    }
}

/// The views of found numbers.
pub open spec fn number_views(v: Seq<NumberInText>) -> Seq<(Seq<u8>, nat, Seq<Seq<char>>)> {
    v.map_values(|n: NumberInText| n.view())
}

fn parse_word(w: &Vec<char>) -> (r: Option<(Vec<u8>, usize)>)
    ensures
        match r {
            Some((ds, frac)) => number_in_word(w@) == Some((ds@, frac as nat)) && all_digits(ds@),
            None => number_in_word(w@) is None,
        },
{
    let mut ds: Vec<u8> = Vec::new();
    let mut points: usize = 0;
    let mut frac: usize = 0;
    let mut i: usize = 0;
    while i < w.len()
        invariant
            i <= w@.len(),
            number_parts(w@.take(i as int)) == (ds@, points as nat, frac as nat),
            all_digits(ds@),
            points <= i,
            frac <= i,
        decreases w@.len() - i,
    {
        proof { assert(w@.take(i + 1).drop_last() =~= w@.take(i as int)); }
        let c = w[i];
        if '0' <= c && c <= '9' {
            let d = (c as u32 - 48) as u8;
            ds.push(d);
            if points > 0 {
                frac = frac + 1;
            } else {
                frac = 0;
            }
        } else if c == '.' {
            points = points + 1;
            frac = 0;
        }
        i = i + 1;
    }
    proof { lemma_take_all(w@); }
    if points <= 1 && ds.len() >= 1 { Some((ds, frac)) } else { None }
}

fn above_one_exec(ds: &Vec<u8>, frac: usize) -> (r: bool)
    requires
        all_digits(ds@),
    ensures
        r == above_one(ds@, frac as nat),
{
    let mut one: Vec<u8> = Vec::new();
    one.push(1);
    proof {
        assert(one@ =~= seq![1u8]);
        assert(seq![1u8].drop_last() =~= Seq::<u8>::empty());
        assert(digits_value(one@) == digits_value(Seq::<u8>::empty()) * 10 + 1);
        assert(digits_value(Seq::<u8>::empty()) == 0);
        assert(digits_value(one@) == 1);
    }
    let p = shifted(&one, frac);
    proof { assert(digits_value(p@) == pow10(frac as nat)); }
    digits_gt(ds, &p)
}

fn context_exec(ws: &Vec<Vec<char>>, i: usize) -> (r: Vec<Vec<char>>)
    requires
        i < ws@.len(),
    ensures
        char_views(r@) == context_of(char_views(ws@), i as int),
{
    let ghost v = char_views(ws@);
    let lo: usize = if i >= 2 { i - 2 } else { 0 };
    let hi: usize = if ws.len() - i > 3 { i + 3 } else { ws.len() };
    let ghost f = context_word();
    let ghost g = long_word();
    let mut r: Vec<Vec<char>> = Vec::new();
    let mut j = lo;
    while j < hi
        invariant
            v == char_views(ws@),
            f == context_word(),
            g == long_word(),
            lo <= j <= hi <= ws@.len(),
            char_views(r@) == v.subrange(lo as int, j as int).map_values(f).filter(g),
        decreases hi - j,
    {
        let s = string_of(&ws[j]);
        let low = to_lower(s.as_str());
        let lc = chars_of(low.as_str());
        let t = trim_alnum_exec(&lc);
        proof {
            assert(v[j as int] == ws@[j as int]@);
            assert(t@ == f(v[j as int]));
            assert(v.subrange(lo as int, j + 1) =~= v.subrange(lo as int, j as int).push(v[j as int]));
            assert(v.subrange(lo as int, j + 1).map_values(f) =~= v.subrange(lo as int, j as int).map_values(f).push(t@));
            v.subrange(lo as int, j as int).map_values(f).lemma_filter_push(t@, g);
        }
        if utf8_len_at_least(&t, 2) {
            let ghost before = char_views(r@);
            r.push(t);
            proof { assert(char_views(r@) =~= before.push(r@.last()@)); }
        }
        j = j + 1;
    }
    r
}

/// The numbers above one that `text` writes, each with its context; see
/// `numbers_in`.
pub fn numbers_with_context(text: &str) -> (r: Vec<NumberInText>)
    ensures
        number_views(r@) == numbers_in(text@),
        forall|k: int| 0 <= k < r@.len() ==> all_digits(#[trigger] r@[k].digits@),
{
    let cs = chars_of(text);
    let ws = split_words(&cs);
    let ghost v = char_views(ws@);
    let ghost idx = Seq::new(v.len(), |i: int| i);
    let mut r: Vec<NumberInText> = Vec::new();
    let mut i: usize = 0;
    while i < ws.len()
        invariant
            v == char_views(ws@),
            v == words_of(text@),
            idx == Seq::new(v.len(), |i: int| i),
            i <= ws@.len(),
            number_views(r@) == collect(idx.take(i as int), number_at(v)),
            forall|k: int| 0 <= k < r@.len() ==> all_digits(#[trigger] r@[k].digits@),
        decreases ws@.len() - i,
    {
        proof {
            lemma_collect_step(idx, number_at(v), i as int);
            assert(idx[i as int] == i);
            assert(v[i as int] == ws@[i as int]@);
        }
        match parse_word(&ws[i]) {
            Some((ds, frac)) => {
                if above_one_exec(&ds, frac) {
                    let ctx = context_exec(&ws, i);
                    let ghost before = number_views(r@);
                    r.push(NumberInText { digits: ds, frac, context: ctx });
                    proof { assert(number_views(r@) =~= before.push(r@.last().view())); }
                }
            },
            None => {},
        }
        i = i + 1;
    }
    proof { lemma_take_all(idx); }
    r
}

// ---------------------------------------------------------------- divergence

/// Two contexts share a word at least three bytes long.
pub open spec fn shares_context(ca: Seq<Seq<char>>, cb: Seq<Seq<char>>) -> bool {
    exists|x: int, y: int| 0 <= x < ca.len() && 0 <= y < cb.len() && #[trigger] ca[x] == #[trigger] cb[y]
        && utf8_len(ca[x]) >= 3
}

/// Number `a` is more than one and a half times number `b`, or less than
/// 0.67 of it (compared exactly).
pub open spec fn diverges(a: (Seq<u8>, nat, Seq<Seq<char>>), b: (Seq<u8>, nat, Seq<Seq<char>>)) -> bool {
    ||| (2 * digits_value(a.0)) * pow10(b.1) > (3 * digits_value(b.0)) * pow10(a.1)
    ||| (100 * digits_value(a.0)) * pow10(b.1) < (67 * digits_value(b.0)) * pow10(a.1)
}

/// Some number of text `ta` and some number of text `tb` stand among a
/// shared context word and diverge.
pub open spec fn numeric_divergence(ta: Seq<char>, tb: Seq<char>) -> bool {
    let na = numbers_in(ta);
    let nb = numbers_in(tb);
    exists|i: int, j: int| 0 <= i < na.len() && 0 <= j < nb.len()
        && shares_context(#[trigger] na[i].2, #[trigger] nb[j].2) && diverges(na[i], nb[j])
}

pub(crate) fn chars_eq(a: &Vec<char>, b: &Vec<char>) -> (r: bool)
    ensures
        r == (a@ == b@),
{
    if a.len() != b.len() {
        return false;
    }
    let mut i: usize = 0;
    while i < a.len()
        invariant
            a@.len() == b@.len(),
            i <= a@.len(),
            a@.take(i as int) == b@.take(i as int),
        decreases a@.len() - i,
    {
        if a[i] != b[i] {
            return false;
        }
        proof { assert(a@.take(i + 1) =~= b@.take(i + 1)); }
        i = i + 1;
    }
    proof {
        assert(a@ =~= a@.take(i as int));
        assert(b@ =~= b@.take(i as int));
    }
    true
}

fn shares_context_exec(ca: &Vec<Vec<char>>, cb: &Vec<Vec<char>>) -> (r: bool)
    ensures
        r == shares_context(char_views(ca@), char_views(cb@)),
{
    let ghost va = char_views(ca@);
    let ghost vb = char_views(cb@);
    let mut x: usize = 0;
    while x < ca.len()
        invariant
            va == char_views(ca@),
            vb == char_views(cb@),
            x <= ca@.len(),
            forall|p: int, q: int| 0 <= p < x && 0 <= q < vb.len() ==> !(#[trigger] va[p] == #[trigger] vb[q]
                && utf8_len(va[p]) >= 3),
        decreases ca@.len() - x,
    {
        let long = utf8_len_at_least(&ca[x], 3);
        let mut y: usize = 0;
        while y < cb.len()
            invariant
                va == char_views(ca@),
                vb == char_views(cb@),
                x < ca@.len(),
                y <= cb@.len(),
                long == (utf8_len(va[x as int]) >= 3),
                forall|p: int, q: int| 0 <= p < x && 0 <= q < vb.len() ==> !(#[trigger] va[p] == #[trigger] vb[q]
                    && utf8_len(va[p]) >= 3),
                forall|q: int| 0 <= q < y ==> !(va[x as int] == #[trigger] vb[q] && utf8_len(va[x as int]) >= 3),
            decreases cb@.len() - y,
        {
            if long && chars_eq(&ca[x], &cb[y]) {
                proof {
                    assert(va[x as int] == vb[y as int]);
                    assert(shares_context(va, vb));
                }
                return true;
            }
            y = y + 1;
        }
        x = x + 1;
    }
    false
}

fn diverges_exec(a: &NumberInText, b: &NumberInText) -> (r: bool)
    requires
        all_digits(a.digits@),
        all_digits(b.digits@),
    ensures
        r == diverges(a.view(), b.view()),
{
    let p1 = shifted(&mul_small(&a.digits, 2), b.frac);
    let q1 = shifted(&mul_small(&b.digits, 3), a.frac);
    if digits_gt(&p1, &q1) {
        return true;
    }
    let p2 = shifted(&mul_small(&a.digits, 100), b.frac);
    let q2 = shifted(&mul_small(&b.digits, 67), a.frac);
    digits_gt(&q2, &p2)
}

/// Whether some number of `a` and some number of `b` that stand among a
/// shared context word diverge; see `numeric_divergence`.
pub fn numbers_diverge(a: &str, b: &str) -> (r: bool)
    ensures
        r == numeric_divergence(a@, b@),
{
    let na = numbers_with_context(a);
    let nb = numbers_with_context(b);
    let ghost va = number_views(na@);
    let ghost vb = number_views(nb@);
    let mut i: usize = 0;
    while i < na.len()
        invariant
            va == number_views(na@),
            vb == number_views(nb@),
            va == numbers_in(a@),
            vb == numbers_in(b@),
            forall|k: int| 0 <= k < na@.len() ==> all_digits(#[trigger] na@[k].digits@),
            forall|k: int| 0 <= k < nb@.len() ==> all_digits(#[trigger] nb@[k].digits@),
            i <= na@.len(),
            forall|p: int, q: int| 0 <= p < i && 0 <= q < vb.len() ==> !(shares_context(#[trigger] va[p].2, #[trigger] vb[q].2)
                && diverges(va[p], vb[q])),
        decreases na@.len() - i,
    {
        let mut j: usize = 0;
        while j < nb.len()
            invariant
                va == number_views(na@),
                vb == number_views(nb@),
                va == numbers_in(a@),
                vb == numbers_in(b@),
                forall|k: int| 0 <= k < na@.len() ==> all_digits(#[trigger] na@[k].digits@),
                forall|k: int| 0 <= k < nb@.len() ==> all_digits(#[trigger] nb@[k].digits@),
                i < na@.len(),
                j <= nb@.len(),
                forall|p: int, q: int| 0 <= p < i && 0 <= q < vb.len() ==> !(shares_context(#[trigger] va[p].2, #[trigger] vb[q].2)
                    && diverges(va[p], vb[q])),
                forall|q: int| 0 <= q < j ==> !(shares_context(va[i as int].2, #[trigger] vb[q].2) && diverges(va[i as int], vb[q])),
            decreases nb@.len() - j,
        {
            proof {
                assert(va[i as int] == na@[i as int].view());
                assert(vb[j as int] == nb@[j as int].view());
                assert(all_digits(na@[i as int].digits@));
                assert(all_digits(nb@[j as int].digits@));
            }
            if shares_context_exec(&na[i].context, &nb[j].context) && diverges_exec(&na[i], &nb[j]) {
                proof {
                    assert(va[i as int].2 == char_views(na@[i as int].context@));
                    assert(shares_context(va[i as int].2, vb[j as int].2));
                    assert(diverges(va[i as int], vb[j as int]));
                    assert(numeric_divergence(a@, b@));
                }
                return true;
            }
            j = j + 1;
        }
        i = i + 1;
    }
    false
}

} // verus!
