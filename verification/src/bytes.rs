//! Byte-level helpers for the escape-sequence decoder: scanning a parameter
//! run for its terminating byte, splitting semicolon-separated fields, and
//! parsing unsigned decimal numbers with the same acceptance rules as
//! `str::parse` on an unsigned integer (an optional leading `+`, then one or
//! more ASCII digits, rejected on overflow).
use vstd::prelude::*;

verus! {

/// Predicate picking out a CSI final byte (the range `0x40..=0x7E` that ends
/// a CSI parameter run).
pub open spec fn csi_final_p() -> spec_fn(u8) -> bool {
    |b: u8| 64 <= b && b <= 126
}

/// Predicate picking out the two bytes (`m` and `M`) that end an SGR mouse
/// report.
pub open spec fn mouse_end_p() -> spec_fn(u8) -> bool {
    |b: u8| b == 109 || b == 77
}

/// Predicate picking out the semicolon that separates CSI parameters.
pub open spec fn semi_p() -> spec_fn(u8) -> bool {
    |b: u8| b == 59
}

/// Index of the first byte at or after `i` satisfying `p`, or `s.len()` when
/// no such byte exists.
pub open spec fn first_from(s: Seq<u8>, i: int, p: spec_fn(u8) -> bool) -> int
    decreases s.len() - i,
{
    if i < 0 || i >= s.len() {
        s.len() as int
    } else if p(s[i]) {
        i
    } else {
        first_from(s, i + 1, p)
    }
}

pub proof fn lemma_first_from(s: Seq<u8>, i: int, p: spec_fn(u8) -> bool)
    requires
        0 <= i <= s.len(),
    ensures
        i <= first_from(s, i, p) <= s.len(),
        first_from(s, i, p) < s.len() ==> p(s[first_from(s, i, p)]),
        forall|k: int| i <= k < first_from(s, i, p) ==> !p(#[trigger] s[k]),
    decreases s.len() - i,
{
    if i < s.len() && !p(s[i]) {
        lemma_first_from(s, i + 1, p);
    }
}

/// The semicolon-separated fields of `s[i..]`, in order.  A sequence without
/// a semicolon is one field; every semicolon ends a field, so a trailing
/// semicolon yields a final empty field.
pub open spec fn split_from(s: Seq<u8>, i: int) -> Seq<Seq<u8>>
    decreases s.len() - i,
{
    let j0 = first_from(s, i, semi_p());
    let j = if j0 < i {
        i
    } else {
        j0
    };
    if !(0 <= i <= s.len()) {
        seq![]
    } else if j >= s.len() {
        seq![s.subrange(i, s.len() as int)]
    } else {
        seq![s.subrange(i, j)] + split_from(s, j + 1)
    }
}

/// True when every byte of `s` is an ASCII digit.
pub open spec fn all_digits(s: Seq<u8>) -> bool {
    forall|k: int| 0 <= k < s.len() ==> 48 <= #[trigger] s[k] <= 57
}

/// The number denoted by a sequence of ASCII digits, most significant first.
pub open spec fn dec_val(s: Seq<u8>) -> nat
    recommends
        all_digits(s),
    decreases s.len(),
{
    if s.len() == 0 {
        0
    } else {
        (dec_val(s.drop_last()) * 10 + (s.last() - 48)) as nat
    }
}

/// What `str::parse` accepts for an unsigned integer, before any range
/// check: an optional `+`, then at least one digit.
pub open spec fn spec_parse_num(s: Seq<u8>) -> Option<nat> {
    let body = if s.len() > 0 && s[0] == 43 {
        s.skip(1)
    } else {
        s
    };
    if body.len() > 0 && all_digits(body) {
        Some(dec_val(body))
    } else {
        None
    }
}

/// `str::parse::<u8>` on the bytes `s`.
pub open spec fn spec_parse_u8(s: Seq<u8>) -> Option<u8> {
    match spec_parse_num(s) {
        Some(v) => if v <= 255 {
            Some(v as u8)
        } else {
            None
        },
        None => None,
    }
}

/// `str::parse::<u16>` on the bytes `s`.
pub open spec fn spec_parse_u16(s: Seq<u8>) -> Option<u16> {
    match spec_parse_num(s) {
        Some(v) => if v <= 65535 {
            Some(v as u16)
        } else {
            None
        },
        None => None,
    }
}

/// The fields of `pieces` that parse as `u8`, in order, skipping the rest.
pub open spec fn spec_nums_u8(pieces: Seq<Seq<u8>>) -> Seq<u8>
    decreases pieces.len(),
{
    if pieces.len() == 0 {
        seq![]
    } else {
        match spec_parse_u8(pieces[0]) {
            Some(v) => seq![v] + spec_nums_u8(pieces.skip(1)),
            None => spec_nums_u8(pieces.skip(1)),
        }
    }
}

pub open spec fn pow10(n: nat) -> nat
    decreases n,
{
    if n == 0 {
        1
    } else {
        10 * pow10((n - 1) as nat)
    }
}

proof fn lemma_dec_val_lower(s: Seq<u8>)
    requires
        all_digits(s),
        s.len() > 0,
        s[0] != 48,
    ensures
        dec_val(s) >= pow10((s.len() - 1) as nat),
    decreases s.len(),
{
    if s.len() > 1 {
        lemma_dec_val_lower(s.drop_last());
    }
}

proof fn lemma_dec_val_zero_head(s: Seq<u8>)
    requires
        all_digits(s),
        s.len() > 0,
        s[0] == 48,
    ensures
        dec_val(s) == dec_val(s.skip(1)),
    decreases s.len(),
{
    if s.len() == 1 {
        assert(s.skip(1) =~= Seq::<u8>::empty());
        assert(s.drop_last() =~= Seq::<u8>::empty());
        assert(dec_val(s) == (dec_val(s.drop_last()) * 10 + (s.last() - 48)) as nat);
        assert(dec_val(s) == 0);
    } else {
        assert(all_digits(s.drop_last())) by {
            assert(forall|k: int| 0 <= k < s.len() - 1 ==> s.drop_last()[k] == s[k]);
        }
        lemma_dec_val_zero_head(s.drop_last());
        assert(s.drop_last()[0] == s[0]);
        assert(s.skip(1).drop_last() =~= s.drop_last().skip(1));
        assert(s.skip(1).last() == s.last());
        assert(48 <= s[s.len() - 1] <= 57);
        assert(s.last() == s[s.len() - 1]);
        assert(dec_val(s) == dec_val(s.drop_last()) * 10 + (s.last() - 48));
        assert(dec_val(s.skip(1)) == dec_val(s.skip(1).drop_last()) * 10 + (s.skip(1).last() - 48));
    }
}

proof fn lemma_dec_val_strip_zeros(s: Seq<u8>, m: int)
    requires
        all_digits(s),
        0 <= m <= s.len(),
        forall|k: int| 0 <= k < m ==> s[k] == 48,
    ensures
        dec_val(s) == dec_val(s.skip(m)),
    decreases m,
{
    if m > 0 {
        lemma_dec_val_zero_head(s);
        assert(all_digits(s.skip(1))) by {
            assert(forall|k: int| 0 <= k < s.len() - 1 ==> s.skip(1)[k] == s[k + 1]);
        }
        lemma_dec_val_strip_zeros(s.skip(1), m - 1);
        assert(s.skip(1).skip(m - 1) =~= s.skip(m));
    } else {
        assert(s.skip(0) =~= s);
    }
}

/// Parse `s` as an unsigned decimal number the way `str::parse` does, and
/// additionally reject values above `cap`.
#[verifier::loop_isolation(false)]
#[verifier::rlimit(30)]
fn parse_num_capped(s: &[u8], cap: u32) -> (r: Option<u32>)
    requires
        cap <= 65535,
    ensures
        r == (match spec_parse_num(s@) {
            Some(v) => if v <= cap {
                Some(v as u32)
            } else {
                None::<u32>
            },
            None => None::<u32>,
        }),
{
    let n = s.len();
    let start: usize = if n > 0 && *vstd::slice::slice_index_get(s, 0) == 43 {
        1
    } else {
        0
    };
    let ghost body = if s@.len() > 0 && s@[0] == 43 {
        s@.skip(1)
    } else {
        s@
    };
    assert(body =~= s@.subrange(start as int, n as int));
    if start >= n {
        return None;
    }
    let mut k = start;
    while k < n
        invariant
            start <= k <= n,
            n == s@.len(),
            forall|j: int| start <= j < k ==> 48 <= #[trigger] s@[j] <= 57,
        decreases n - k,
    {
        let c = *vstd::slice::slice_index_get(s, k);
        if c < 48 || c > 57 {
            proof {
                assert(body =~= s@.subrange(start as int, n as int));
                assert(s@.subrange(start as int, n as int)[k - start] == s@[k as int]);
                assert(!(48 <= body[k - start] <= 57));
            }
            return None;
        }
        k += 1;
    }
    assert(all_digits(body));
    let mut z = start;
    while z < n && *vstd::slice::slice_index_get(s, z) == 48
        invariant
            start <= z <= n,
            n == s@.len(),
            forall|j: int| start <= j < z ==> s@[j] == 48,
        decreases n - z,
    {
        z += 1;
    }
    proof {
        lemma_dec_val_strip_zeros(body, z - start);
        assert(body.skip(z - start) =~= s@.subrange(z as int, n as int));
    }
    let ghost stripped = s@.subrange(z as int, n as int);
    if n - z > 5 {
        proof {
            lemma_dec_val_lower(stripped);
            lemma_pow10_mono(5, (stripped.len() - 1) as nat);
            reveal_with_fuel(pow10, 6);
            assert(dec_val(stripped) >= 100000);
        }
        return None;
    }
    let mut acc: u32 = 0;
    let mut k2 = z;
    while k2 < n
        invariant
            z <= k2 <= n,
            n == s@.len(),
            n - z <= 5,
            all_digits(stripped),
            stripped == s@.subrange(z as int, n as int),
            acc == dec_val(s@.subrange(z as int, k2 as int)),
            acc < pow10((k2 - z) as nat),
        decreases n - k2,
    {
        let d = *vstd::slice::slice_index_get(s, k2);
        proof {
            let pre = s@.subrange(z as int, k2 as int);
            let post = s@.subrange(z as int, k2 as int + 1);
            assert(post.drop_last() =~= pre);
            assert(post.last() == s@[k2 as int]);
            lemma_pow10_mono((k2 + 1 - z) as nat, 5);
            reveal_with_fuel(pow10, 6);
            assert(pow10(5) == 100000);
        }
        acc = acc * 10 + (d - 48) as u32;
        k2 += 1;
    }
    assert(acc == dec_val(body));
    if acc <= cap {
        Some(acc)
    } else {
        None
    }
}

proof fn lemma_pow10_mono(a: nat, b: nat)
    requires
        a <= b,
    ensures
        pow10(a) <= pow10(b),
    decreases b,
{
    if a < b {
        lemma_pow10_mono(a, (b - 1) as nat);
    }
}

/// Parse `s` as `str::parse::<u8>` would.
pub fn parse_u8_bytes(s: &[u8]) -> (r: Option<u8>)
    ensures
        r == spec_parse_u8(s@),
{
    match parse_num_capped(s, 255) {
        Some(v) => Some(v as u8),
        None => None,
    }
}

/// Parse `s` as `str::parse::<u16>` would.
pub fn parse_u16_bytes(s: &[u8]) -> (r: Option<u16>)
    ensures
        r == spec_parse_u16(s@),
{
    match parse_num_capped(s, 65535) {
        Some(v) => Some(v as u16),
        None => None,
    }
}

/// Index of the first semicolon at or after `from`, or `s.len()` if none.
#[verifier::loop_isolation(false)]
fn find_semi(s: &[u8], from: usize) -> (r: usize)
    requires
        from <= s@.len(),
    ensures
        r == first_from(s@, from as int, semi_p()),
{
    let n = s.len();
    let mut k = from;
    while k < n
        invariant
            from <= k <= n,
            n == s@.len(),
            forall|j: int| from <= j < k ==> !semi_p()(#[trigger] s@[j]),
        decreases n - k,
    {
        if *vstd::slice::slice_index_get(s, k) == 59 {
            proof {
                lemma_first_from_found(s@, from as int, k as int, semi_p());
            }
            return k;
        }
        k += 1;
    }
    proof {
        lemma_first_from(s@, from as int, semi_p());
        if first_from(s@, from as int, semi_p()) < s@.len() {
            assert(semi_p()(s@[first_from(s@, from as int, semi_p())]));
        }
    }
    n
}

/// If no byte in `i..j` matches and `s[j]` matches, the scan finds `j`.
pub proof fn lemma_first_from_found(s: Seq<u8>, i: int, j: int, p: spec_fn(u8) -> bool)
    requires
        0 <= i <= j < s.len(),
        p(s[j]),
        forall|k: int| i <= k < j ==> !p(#[trigger] s[k]),
    ensures
        first_from(s, i, p) == j,
    decreases j - i,
{
    if i < j {
        lemma_first_from_found(s, i + 1, j, p);
    }
}

/// Split `s` at semicolons, per [`split_from`].
#[verifier::loop_isolation(false)]
pub fn split_semis(s: &[u8]) -> (r: Vec<Vec<u8>>)
    ensures
        r.deep_view() == split_from(s@, 0),
{
    let n = s.len();
    let mut r: Vec<Vec<u8>> = Vec::new();
    let mut i: usize = 0;
    loop
        invariant
            i <= n,
            n == s@.len(),
            split_from(s@, 0) == r.deep_view() + split_from(s@, i as int),
        decreases n - i,
    {
        let j = find_semi(s, i);
        proof {
            lemma_first_from(s@, i as int, semi_p());
        }
        let piece = vstd::slice::slice_to_vec(vstd::slice::slice_subrange(s, i, j));
        let ghost old_dv = r.deep_view();
        let ghost pdv = piece.deep_view();
        proof {
            assert(pdv =~= piece@);
        }
        r.push(piece);
        proof {
            assert(r.deep_view() =~= old_dv + seq![s@.subrange(i as int, j as int)]);
        }
        if j >= n {
            proof {
                assert(split_from(s@, i as int) == seq![s@.subrange(i as int, n as int)]);
                assert(r.deep_view() =~~= split_from(s@, 0));
            }
            return r;
        }
        proof {
            assert(split_from(s@, i as int) == seq![s@.subrange(i as int, j as int)] + split_from(
                s@,
                j + 1,
            ));
            assert(r.deep_view() + split_from(s@, j + 1) =~~= split_from(s@, 0));
        }
        i = j + 1;
    }
}

/// The fields of `pieces` that parse as `u8`, per [`spec_nums_u8`].
#[verifier::loop_isolation(false)]
pub fn nums_u8(pieces: &Vec<Vec<u8>>) -> (r: Vec<u8>)
    ensures
        r@ == spec_nums_u8(pieces.deep_view()),
{
    let n = pieces.len();
    let ghost dv = pieces.deep_view();
    let mut r: Vec<u8> = Vec::new();
    let mut i: usize = 0;
    proof {
        assert(dv.skip(0) =~= dv);
        assert(r@ + spec_nums_u8(dv) =~= spec_nums_u8(dv));
    }
    while i < n
        invariant
            i <= n,
            n == pieces@.len(),
            dv == pieces.deep_view(),
            dv.len() == n,
            spec_nums_u8(dv) == r@ + spec_nums_u8(dv.skip(i as int)),
        decreases n - i,
    {
        let ghost pre = r@;
        proof {
            assert(dv.skip(i as int).len() > 0);
            assert(dv.skip(i as int)[0] == dv[i as int]);
            assert(dv.skip(i as int).skip(1) =~= dv.skip(i as int + 1));
            assert(pieces@[i as int].deep_view() =~= pieces@[i as int]@);
            assert(pieces@[i as int]@ == dv[i as int]);
        }
        match parse_u8_bytes(pieces[i].as_slice()) {
            Some(v) => {
                r.push(v);
                proof {
                    assert(r@ + spec_nums_u8(dv.skip(i as int + 1)) =~= pre + (seq![v]
                        + spec_nums_u8(dv.skip(i as int + 1))));
                }
            },
            None => {},
        }
        i += 1;
    }
    proof {
        assert(dv.skip(n as int) =~= Seq::<Seq<u8>>::empty());
        assert(r@ =~= spec_nums_u8(dv));
    }
    r
}

/// The ASCII digits of `n`, most significant first, no leading zeros.
pub open spec fn dec_bytes(n: nat) -> Seq<u8>
    decreases n,
{
    if n < 10 {
        seq![(n + 48) as u8]
    } else {
        dec_bytes(n / 10).push((n % 10 + 48) as u8)
    }
}

pub proof fn lemma_dec_bytes(n: nat)
    ensures
        dec_bytes(n).len() >= 1,
        all_digits(dec_bytes(n)),
        dec_val(dec_bytes(n)) == n,
    decreases n,
{
    if n < 10 {
        let s = dec_bytes(n);
        assert(s.drop_last() =~= Seq::<u8>::empty());
        assert(s.last() == (n + 48) as u8);
        assert(dec_val(s) == (dec_val(s.drop_last()) * 10 + (s.last() - 48)) as nat);
        assert(dec_val(s) == n);
    } else {
        lemma_dec_bytes(n / 10);
        let s = dec_bytes(n / 10);
        let d = (n % 10 + 48) as u8;
        assert(s.push(d).drop_last() =~= s);
        assert(s.push(d).last() == d);
        assert(all_digits(s.push(d))) by {
            assert(forall|k: int|
                0 <= k < s.len() ==> #[trigger] s.push(d)[k] == s[k]);
            assert(s.push(d)[s.len() as int] == d);
        }
        assert(dec_val(s.push(d)) == (dec_val(s.push(d).drop_last()) * 10 + (s.push(d).last()
            - 48)) as nat);
        assert(dec_val(s.push(d)) == dec_val(s) * 10 + (d - 48));
        assert(n == (n / 10) * 10 + n % 10) by (nonlinear_arith);
        assert(dec_bytes(n) == s.push(d));
        assert(dec_val(dec_bytes(n)) == n);
    }
}

/// Splitting a sequence of exactly two semicolon-free fields around one
/// semicolon yields exactly those fields.
pub proof fn lemma_split_two(x: Seq<u8>, y: Seq<u8>)
    requires
        forall|k: int| 0 <= k < x.len() ==> #[trigger] x[k] != 59,
        forall|k: int| 0 <= k < y.len() ==> #[trigger] y[k] != 59,
    ensures
        split_from(x + seq![59u8] + y, 0) == seq![x, y],
{
    let s = x + seq![59u8] + y;
    assert(s[x.len() as int] == 59);
    assert(forall|k: int| 0 <= k < x.len() ==> #[trigger] s[k] == x[k]);
    lemma_first_from_found(s, 0, x.len() as int, semi_p());
    assert(s.subrange(0, x.len() as int) =~= x);
    lemma_first_from(s, x.len() as int + 1, semi_p());
    if first_from(s, x.len() as int + 1, semi_p()) < s.len() {
        let i = first_from(s, x.len() as int + 1, semi_p());
        assert(s[i] == y[i - x.len() - 1]);
        assert(false);
    }
    assert(s.subrange(x.len() as int + 1, s.len() as int) =~= y);
    assert(split_from(s, x.len() as int + 1) == seq![y]);
    assert(split_from(s, 0) =~= seq![x, y]);
}

} // verus!
