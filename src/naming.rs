//! Natural ("human") ordering of names, and a stable sort that uses it.
use std::cmp::Ordering;
use vstd::prelude::*;
use vstd::std_specs::iter::IteratorSpec;

verus! {

broadcast use vstd::string::group_string_axioms;

pub open spec fn is_digit(c: char) -> bool {
    '0' <= c <= '9'
}

/// The length of the run of digits that starts `s`.
pub open spec fn run_len(s: Seq<char>) -> nat
    decreases s.len(),
{
    if s.len() > 0 && is_digit(s[0]) {
        1 + run_len(s.drop_first())
    } else {
        0
    }
}

/// The number of zeros that start `s`.
pub open spec fn zeros_len(s: Seq<char>) -> nat
    decreases s.len(),
{
    if s.len() > 0 && s[0] == '0' {
        1 + zeros_len(s.drop_first())
    } else {
        0
    }
}

/// Character by character, the shorter first where one is a prefix of the
/// other.
pub open spec fn seq_order(x: Seq<char>, y: Seq<char>) -> Ordering
    decreases x.len(),
{
    if x.len() == 0 {
        if y.len() == 0 {
            Ordering::Equal
        } else {
            Ordering::Less
        }
    } else if y.len() == 0 {
        Ordering::Greater
    } else if x[0] < y[0] {
        Ordering::Less
    } else if x[0] > y[0] {
        Ordering::Greater
    } else {
        seq_order(x.drop_first(), y.drop_first())
    }
}

/// The order of two digit strings without leading zeros by their value:
/// the shorter is smaller, and of two of one length the first differing
/// digit decides.
pub open spec fn number_order(x: Seq<char>, y: Seq<char>) -> Ordering {
    if x.len() < y.len() {
        Ordering::Less
    } else if x.len() > y.len() {
        Ordering::Greater
    } else {
        seq_order(x, y)
    }
}

/// The significant digits of the run that starts `s`.
pub open spec fn run_digits(s: Seq<char>) -> Seq<char> {
    let d = s.take(run_len(s) as int);
    d.skip(zeros_len(d) as int)
}

proof fn lemma_run_len(s: Seq<char>)
    ensures
        run_len(s) <= s.len(),
        s.len() > 0 && is_digit(s[0]) ==> run_len(s) >= 1,
    decreases s.len(),
{
    if s.len() > 0 && is_digit(s[0]) {
        lemma_run_len(s.drop_first());
    }
}

/// The length of the digit run that starts a non-empty `s` that starts with
/// a digit; it is at least one and at most the length of `s`.
pub open spec fn run_step(s: Seq<char>) -> int {
    let r = run_len(s) as int;
    if 1 <= r <= s.len() {
        r
    } else {
        1
    }
}

/// The natural comparison of two names: where both continue with a run of
/// digits, the runs compare by numeric value (leading zeros do not count);
/// everything else compares character by character, by code point; a name
/// that is a prefix of the other comes first. Distinct names may tie here
/// ("03" and "3").
pub open spec fn numeric_order(a: Seq<char>, b: Seq<char>) -> Ordering
    decreases a.len() + b.len(),
{
    if a.len() == 0 || b.len() == 0 {
        seq_order(a, b)
    } else if is_digit(a[0]) && is_digit(b[0]) {
        let o = number_order(run_digits(a), run_digits(b));
        if o != Ordering::Equal {
            o
        } else {
            numeric_order(a.skip(run_step(a)), b.skip(run_step(b)))
        }
    } else if a[0] < b[0] {
        Ordering::Less
    } else if a[0] > b[0] {
        Ordering::Greater
    } else {
        numeric_order(a.drop_first(), b.drop_first())
    }
}

/// The natural order of two names: their natural comparison, and where that
/// ties, their plain code-point order, so that only equal names are equal.
pub open spec fn nat_order(a: Seq<char>, b: Seq<char>) -> Ordering {
    let o = numeric_order(a, b);
    if o != Ordering::Equal {
        o
    } else {
        seq_order(a, b)
    }
}

pub open spec fn flip(o: Ordering) -> Ordering {
    match o {
        Ordering::Less => Ordering::Greater,
        Ordering::Equal => Ordering::Equal,
        Ordering::Greater => Ordering::Less,
    }
}

proof fn lemma_seq_order_antisym(x: Seq<char>, y: Seq<char>)
    ensures
        seq_order(y, x) == flip(seq_order(x, y)),
        seq_order(x, y) == Ordering::Equal ==> x == y,
    decreases x.len(),
{
    if x.len() > 0 && y.len() > 0 && x[0] == y[0] {
        lemma_seq_order_antisym(x.drop_first(), y.drop_first());
        if seq_order(x, y) == Ordering::Equal {
            assert(x =~= seq![x[0]] + x.drop_first());
            assert(y =~= seq![y[0]] + y.drop_first());
        }
    }
    if x.len() == 0 && y.len() == 0 {
        assert(x =~= y);
    }
}

proof fn lemma_seq_order_trans(x: Seq<char>, y: Seq<char>, z: Seq<char>)
    requires
        seq_order(x, y) == Ordering::Less,
        seq_order(y, z) == Ordering::Less,
    ensures
        seq_order(x, z) == Ordering::Less,
    decreases x.len(),
{
    if x.len() > 0 && y.len() > 0 && z.len() > 0 && x[0] == y[0] && y[0] == z[0] {
        lemma_seq_order_trans(x.drop_first(), y.drop_first(), z.drop_first());
    }
}

/// Swapping two names reverses their natural comparison.
proof fn lemma_numeric_order_antisym(a: Seq<char>, b: Seq<char>)
    ensures
        numeric_order(b, a) == flip(numeric_order(a, b)),
    decreases a.len() + b.len(),
{
    if a.len() == 0 || b.len() == 0 {
        lemma_seq_order_antisym(a, b);
    } else if is_digit(a[0]) && is_digit(b[0]) {
        lemma_seq_order_antisym(run_digits(a), run_digits(b));
        lemma_run_len(a);
        lemma_run_len(b);
        lemma_numeric_order_antisym(a.skip(run_step(a)), b.skip(run_step(b)));
    } else if a[0] == b[0] {
        lemma_numeric_order_antisym(a.drop_first(), b.drop_first());
    }
}

/// The natural comparison is transitive, strictly where either step is
/// strict.
proof fn lemma_numeric_order_trans(a: Seq<char>, b: Seq<char>, c: Seq<char>)
    requires
        numeric_order(a, b) != Ordering::Greater,
        numeric_order(b, c) != Ordering::Greater,
    ensures
        numeric_order(a, c) != Ordering::Greater,
        numeric_order(a, b) == Ordering::Less || numeric_order(b, c) == Ordering::Less ==> numeric_order(a, c)
            == Ordering::Less,
    decreases a.len() + b.len() + c.len(),
{
    if a.len() == 0 || b.len() == 0 || c.len() == 0 {
    } else {
        let da = is_digit(a[0]);
        let db = is_digit(b[0]);
        let dc = is_digit(c[0]);
        if da && db && dc {
            let ra = run_digits(a);
            let rb = run_digits(b);
            let rc = run_digits(c);
            lemma_seq_order_antisym(ra, rb);
            lemma_seq_order_antisym(rb, rc);
            lemma_seq_order_antisym(ra, rc);
            if ra.len() == rb.len() && rb.len() == rc.len() && seq_order(ra, rb) == Ordering::Less
                && seq_order(rb, rc) == Ordering::Less {
                lemma_seq_order_trans(ra, rb, rc);
            }
            if number_order(ra, rb) == Ordering::Equal && number_order(rb, rc) == Ordering::Equal {
                lemma_run_len(a);
                lemma_run_len(b);
                lemma_run_len(c);
                lemma_numeric_order_trans(a.skip(run_step(a)), b.skip(run_step(b)), c.skip(run_step(c)));
            }
        } else if a[0] == b[0] && b[0] == c[0] && !da {
            lemma_numeric_order_trans(a.drop_first(), b.drop_first(), c.drop_first());
        }
    }
}

proof fn lemma_seq_order_le_trans(x: Seq<char>, y: Seq<char>, z: Seq<char>)
    requires
        seq_order(x, y) != Ordering::Greater,
        seq_order(y, z) != Ordering::Greater,
    ensures
        seq_order(x, z) != Ordering::Greater,
        seq_order(x, y) == Ordering::Less || seq_order(y, z) == Ordering::Less ==> seq_order(x, z)
            == Ordering::Less,
{
    lemma_seq_order_antisym(x, y);
    lemma_seq_order_antisym(y, z);
    if seq_order(x, y) == Ordering::Less && seq_order(y, z) == Ordering::Less {
        lemma_seq_order_trans(x, y, z);
    }
}

/// Swapping two names reverses their natural order.
pub proof fn lemma_nat_order_antisym(a: Seq<char>, b: Seq<char>)
    ensures
        nat_order(b, a) == flip(nat_order(a, b)),
{
    lemma_numeric_order_antisym(a, b);
    lemma_seq_order_antisym(a, b);
}

/// Only equal names are naturally equal, and every name is equal to itself.
pub proof fn lemma_nat_order_equal(a: Seq<char>, b: Seq<char>)
    ensures
        nat_order(a, b) == Ordering::Equal <==> a == b,
{
    lemma_numeric_order_antisym(a, a);
    lemma_seq_order_antisym(a, b);
    lemma_seq_order_antisym(a, a);
}

/// Natural order is transitive: of three names in order, the first comes
/// no later than the last, and strictly before it where either step is
/// strict.
pub proof fn lemma_nat_order_trans(a: Seq<char>, b: Seq<char>, c: Seq<char>)
    requires
        nat_order(a, b) != Ordering::Greater,
        nat_order(b, c) != Ordering::Greater,
    ensures
        nat_order(a, c) != Ordering::Greater,
        nat_order(a, b) == Ordering::Less || nat_order(b, c) == Ordering::Less ==> nat_order(a, c)
            == Ordering::Less,
{
    lemma_numeric_order_trans(a, b, c);
    if numeric_order(a, b) == Ordering::Equal && numeric_order(b, c) == Ordering::Equal {
        lemma_seq_order_le_trans(a, b, c);
    }
}

/// The characters of `s`.
pub fn chars_of(s: &str) -> (r: Vec<char>)
    ensures
        r@ == s@,
{
    let ghost all = s@;
    let mut it = s.chars();
    let mut r: Vec<char> = Vec::new();
    loop
        invariant
            all == s@,
            r@.len() <= all.len(),
            all.subrange(0, r@.len() as int) == r@,
            it.remaining() == all.subrange(r@.len() as int, all.len() as int),
            it.obeys_prophetic_iter_laws(),
        ensures
            r@ == all,
        decreases all.len() - r@.len(),
    {
        match it.next() {
            Some(c) => {
                r.push(c);
                assert(all.subrange(0, r@.len() as int) =~= r@);
            },
            None => {
                assert(r@ =~= all);
                break;
            },
        }
    }
    r
}

/// The end of the run of digits that starts at `i`.
fn run_end(v: &Vec<char>, i: usize) -> (e: usize)
    requires
        i <= v@.len(),
    ensures
        i <= e <= v@.len(),
        e - i == run_len(v@.subrange(i as int, v@.len() as int)),
{
    let n = v.len();
    let mut k = i;
    while k < n && '0' <= v[k] && v[k] <= '9'
        invariant
            i <= k <= n,
            n == v@.len(),
            run_len(v@.subrange(i as int, n as int)) == (k - i) + run_len(v@.subrange(k as int, n as int)),
        decreases n - k,
    {
        assert(v@.subrange(k as int, n as int).drop_first() =~= v@.subrange(k + 1, n as int));
        k = k + 1;
    }
    k
}

/// The end of the zeros that start at `i`, before `e`.
fn zero_end(v: &Vec<char>, i: usize, e: usize) -> (z: usize)
    requires
        i <= e <= v@.len(),
    ensures
        i <= z <= e,
        z - i == zeros_len(v@.subrange(i as int, e as int)),
{
    let mut k = i;
    while k < e && v[k] == '0'
        invariant
            i <= k <= e,
            e <= v@.len(),
            zeros_len(v@.subrange(i as int, e as int)) == (k - i) + zeros_len(v@.subrange(k as int, e as int)),
        decreases e - k,
    {
        assert(v@.subrange(k as int, e as int).drop_first() =~= v@.subrange(k + 1, e as int));
        k = k + 1;
    }
    k
}

/// `seq_order` of `a[x..xe]` and `b[y..ye]`.
fn compare_ranges(a: &Vec<char>, x: usize, xe: usize, b: &Vec<char>, y: usize, ye: usize) -> (r: Ordering)
    requires
        x <= xe <= a@.len(),
        y <= ye <= b@.len(),
    ensures
        r == seq_order(a@.subrange(x as int, xe as int), b@.subrange(y as int, ye as int)),
{
    let mut i = x;
    let mut j = y;
    loop
        invariant
            x <= i <= xe <= a@.len(),
            y <= j <= ye <= b@.len(),
            seq_order(a@.subrange(x as int, xe as int), b@.subrange(y as int, ye as int))
                == seq_order(a@.subrange(i as int, xe as int), b@.subrange(j as int, ye as int)),
        decreases xe - i,
    {
        if i == xe {
            return if j == ye { Ordering::Equal } else { Ordering::Less };
        }
        if j == ye {
            return Ordering::Greater;
        }
        if a[i] < b[j] {
            return Ordering::Less;
        }
        if a[i] > b[j] {
            return Ordering::Greater;
        }
        assert(a@.subrange(i as int, xe as int).drop_first() =~= a@.subrange(i + 1, xe as int));
        assert(b@.subrange(j as int, ye as int).drop_first() =~= b@.subrange(j + 1, ye as int));
        i = i + 1;
        j = j + 1;
    }
}

/// `numeric_order` of two names given as characters.
fn compare_numeric(a: &Vec<char>, b: &Vec<char>) -> (r: Ordering)
    ensures
        r == numeric_order(a@, b@),
{
    let na = a.len();
    let nb = b.len();
    let mut i: usize = 0;
    let mut j: usize = 0;
    assert(a@.subrange(0, na as int) =~= a@);
    assert(b@.subrange(0, nb as int) =~= b@);
    loop
        invariant
            na == a@.len(),
            nb == b@.len(),
            i <= na,
            j <= nb,
            numeric_order(a@, b@) == numeric_order(a@.subrange(i as int, na as int), b@.subrange(j as int, nb as int)),
        decreases (na - i) + (nb - j),
    {
        let ghost sa = a@.subrange(i as int, na as int);
        let ghost sb = b@.subrange(j as int, nb as int);
        if i == na || j == nb {
            return compare_ranges(a, i, na, b, j, nb);
        }
        let ca = a[i];
        let cb = b[j];
        if '0' <= ca && ca <= '9' && '0' <= cb && cb <= '9' {
            let ea = run_end(a, i);
            let eb = run_end(b, j);
            proof {
                lemma_run_len(sa);
                lemma_run_len(sb);
                assert(sa.take(run_len(sa) as int) =~= a@.subrange(i as int, ea as int));
                assert(sb.take(run_len(sb) as int) =~= b@.subrange(j as int, eb as int));
                assert(sa.skip(run_step(sa)) =~= a@.subrange(ea as int, na as int));
                assert(sb.skip(run_step(sb)) =~= b@.subrange(eb as int, nb as int));
            }
            let za = zero_end(a, i, ea);
            let zb = zero_end(b, j, eb);
            proof {
                assert(run_digits(sa) =~= a@.subrange(za as int, ea as int));
                assert(run_digits(sb) =~= b@.subrange(zb as int, eb as int));
            }
            let o = if ea - za < eb - zb {
                Ordering::Less
            } else if ea - za > eb - zb {
                Ordering::Greater
            } else {
                compare_ranges(a, za, ea, b, zb, eb)
            };
            match o {
                Ordering::Equal => {},
                _ => {
                    return o;
                },
            }
            i = ea;
            j = eb;
        } else {
            if ca < cb {
                return Ordering::Less;
            }
            if ca > cb {
                return Ordering::Greater;
            }
            assert(sa.drop_first() =~= a@.subrange(i + 1, na as int));
            assert(sb.drop_first() =~= b@.subrange(j + 1, nb as int));
            i = i + 1;
            j = j + 1;
        }
    }
}

/// The natural order of two names.
pub fn natural_compare(a: &str, b: &str) -> (r: Ordering)
    ensures
        r == nat_order(a@, b@),
{
    let ca = chars_of(a);
    let cb = chars_of(b);
    let o = compare_numeric(&ca, &cb);
    match o {
        Ordering::Equal => {
            assert(ca@.subrange(0, ca@.len() as int) =~= ca@);
            assert(cb@.subrange(0, cb@.len() as int) =~= cb@);
            compare_ranges(&ca, 0, ca.len(), &cb, 0, cb.len())
        },
        _ => o,
    }
}

/// Whether `a` comes after `b` in natural order.
pub fn sorts_after(a: &str, b: &str) -> (r: bool)
    ensures
        r == (nat_order(a@, b@) == Ordering::Greater),
        r ==> nat_order(b@, a@) == Ordering::Less,
{
    proof {
        lemma_nat_order_antisym(a@, b@);
    }
    matches!(natural_compare(a, b), Ordering::Greater)
}

/// Where `x` goes when it is inserted into `s`, scanning from position `j`
/// to the left: it passes every key that is greater than its own.
pub open spec fn insert_pos(keys: Seq<Seq<char>>, s: Seq<int>, x: int, j: int) -> int
    decreases j,
{
    if j <= 0 {
        0
    } else if nat_order(keys[s[j - 1]], keys[x]) == Ordering::Greater {
        insert_pos(keys, s, x, j - 1)
    } else {
        j
    }
}

/// The stable insertion sort of the first `n` keys, as the list of their
/// positions in the input.
pub open spec fn sort_prefix(keys: Seq<Seq<char>>, n: nat) -> Seq<int>
    decreases n,
{
    if n == 0 {
        Seq::empty()
    } else {
        let s = sort_prefix(keys, (n - 1) as nat);
        s.insert(insert_pos(keys, s, n - 1, s.len() as int), n - 1)
    }
}

/// The positions of `keys`, ordered naturally by key; equal keys keep their
/// relative order of the input.
pub open spec fn natural_sort(keys: Seq<Seq<char>>) -> Seq<int> {
    sort_prefix(keys, keys.len())
}

/// `s` lists each of `0..n` exactly once.
pub open spec fn is_permutation(s: Seq<int>, n: int) -> bool {
    &&& s.len() == n
    &&& forall|k: int| 0 <= k < s.len() ==> 0 <= #[trigger] s[k] < n
    &&& s.no_duplicates()
}

/// Neighbours in `s` are in natural order of their keys, and neighbours with
/// equal keys keep their order of the input.
pub open spec fn is_sorted_stable(keys: Seq<Seq<char>>, s: Seq<int>) -> bool {
    forall|k: int|
        0 <= k < s.len() - 1 ==> {
            let o = #[trigger] nat_order(keys[s[k]], keys[s[k + 1]]);
            o != Ordering::Greater && (o == Ordering::Equal ==> s[k] < s[k + 1])
        }
}

/// All pairs in `s`, not only neighbours, are in natural order of their
/// keys.
pub open spec fn is_sorted(keys: Seq<Seq<char>>, s: Seq<int>) -> bool {
    forall|i: int, j: int|
        0 <= i < j < s.len() ==> #[trigger] nat_order(keys[s[i]], keys[s[j]]) != Ordering::Greater
}

proof fn lemma_sorted_from(keys: Seq<Seq<char>>, s: Seq<int>, i: int, j: int)
    requires
        is_sorted_stable(keys, s),
        0 <= i < j < s.len(),
    ensures
        nat_order(keys[s[i]], keys[s[j]]) != Ordering::Greater,
    decreases j - i,
{
    let o = nat_order(keys[s[j - 1]], keys[s[j]]);
    assert(o == nat_order(keys[s[j - 1]], keys[s[(j - 1) + 1]]));
    if i < j - 1 {
        lemma_sorted_from(keys, s, i, j - 1);
        lemma_nat_order_trans(keys[s[i]], keys[s[j - 1]], keys[s[j]]);
    }
}

/// A list whose neighbours are in natural order is sorted throughout.
pub proof fn lemma_sorted_throughout(keys: Seq<Seq<char>>, s: Seq<int>)
    requires
        is_sorted_stable(keys, s),
    ensures
        is_sorted(keys, s),
{
    assert forall|i: int, j: int| 0 <= i < j < s.len() implies #[trigger] nat_order(
        keys[s[i]],
        keys[s[j]],
    ) != Ordering::Greater by {
        lemma_sorted_from(keys, s, i, j);
    }
}

/// Of any two positions in `s` whose keys are equal, the earlier one in
/// `s` is the earlier one in the input.
pub open spec fn is_stable(keys: Seq<Seq<char>>, s: Seq<int>) -> bool {
    forall|i: int, j: int|
        0 <= i < j < s.len() && #[trigger] keys[s[i]] == #[trigger] keys[s[j]] ==> s[i] < s[j]
}

proof fn lemma_stable_from(keys: Seq<Seq<char>>, s: Seq<int>, i: int, j: int)
    requires
        is_sorted_stable(keys, s),
        is_sorted(keys, s),
        0 <= i < j < s.len(),
        keys[s[i]] == keys[s[j]],
    ensures
        s[i] < s[j],
    decreases j - i,
{
    let o = nat_order(keys[s[j - 1]], keys[s[j]]);
    assert(o == nat_order(keys[s[j - 1]], keys[s[(j - 1) + 1]]));
    if i < j - 1 {
        assert(nat_order(keys[s[i]], keys[s[j - 1]]) != Ordering::Greater);
        lemma_nat_order_antisym(keys[s[j - 1]], keys[s[j]]);
        lemma_nat_order_equal(keys[s[j - 1]], keys[s[j]]);
        lemma_nat_order_antisym(keys[s[i]], keys[s[j - 1]]);
        lemma_nat_order_equal(keys[s[i]], keys[s[j - 1]]);
        lemma_stable_from(keys, s, i, j - 1);
    } else {
        lemma_nat_order_equal(keys[s[j - 1]], keys[s[j]]);
    }
}

/// A sorted list whose equal neighbours keep their input order keeps it for
/// all equal keys.
pub proof fn lemma_stable_throughout(keys: Seq<Seq<char>>, s: Seq<int>)
    requires
        is_sorted_stable(keys, s),
        is_sorted(keys, s),
    ensures
        is_stable(keys, s),
{
    assert forall|i: int, j: int|
        0 <= i < j < s.len() && #[trigger] keys[s[i]] == #[trigger] keys[s[j]] implies s[i] < s[j] by {
        lemma_stable_from(keys, s, i, j);
    }
}

proof fn lemma_insert_pos_bounds(keys: Seq<Seq<char>>, s: Seq<int>, x: int, j: int)
    requires
        0 <= j <= s.len(),
    ensures
        0 <= insert_pos(keys, s, x, j) <= j,
        insert_pos(keys, s, x, j) > 0 ==> nat_order(keys[s[insert_pos(keys, s, x, j) - 1]], keys[x])
            != Ordering::Greater,
        insert_pos(keys, s, x, j) < j ==> nat_order(keys[s[insert_pos(keys, s, x, j)]], keys[x])
            == Ordering::Greater,
    decreases j,
{
    if j > 0 && nat_order(keys[s[j - 1]], keys[x]) == Ordering::Greater {
        lemma_insert_pos_bounds(keys, s, x, j - 1);
    }
}

/// Inserting the next position where `insert_pos` puts it keeps the list a
/// stable natural sort.
proof fn lemma_insert_step(keys: Seq<Seq<char>>, s: Seq<int>, x: int)
    requires
        x == s.len(),
        is_permutation(s, x),
        is_sorted_stable(keys, s),
        insert_pos(keys, s, x, x) < x ==> nat_order(keys[x], keys[s[insert_pos(keys, s, x, x)]])
            == Ordering::Less,
    ensures
        is_permutation(s.insert(insert_pos(keys, s, x, x), x), x + 1),
        is_sorted_stable(keys, s.insert(insert_pos(keys, s, x, x), x)),
{
    let p = insert_pos(keys, s, x, x);
    lemma_insert_pos_bounds(keys, s, x, x);
    let t = s.insert(p, x);
    assert(t.len() == x + 1);
    assert forall|k: int| 0 <= k < t.len() implies 0 <= #[trigger] t[k] < x + 1 by {
        if k > p {
            assert(t[k] == s[k - 1]);
        }
    }
    assert(t.no_duplicates()) by {
        assert forall|i: int, j: int| 0 <= i < t.len() && 0 <= j < t.len() && i != j implies t[i]
            != t[j] by {
            if i != p && j != p {
                let si = if i < p { i } else { i - 1 };
                let sj = if j < p { j } else { j - 1 };
                assert(t[i] == s[si] && t[j] == s[sj]);
            } else if i == p {
                let sj = if j < p { j } else { j - 1 };
                assert(t[j] == s[sj]);
            } else {
                let si = if i < p { i } else { i - 1 };
                assert(t[i] == s[si]);
            }
        }
    }
    assert forall|k: int| 0 <= k < t.len() - 1 implies {
        let o = #[trigger] nat_order(keys[t[k]], keys[t[k + 1]]);
        o != Ordering::Greater && (o == Ordering::Equal ==> t[k] < t[k + 1])
    } by {
        if k + 1 < p {
            assert(t[k] == s[k] && t[k + 1] == s[k + 1]);
            assert(nat_order(keys[s[k]], keys[s[k + 1]]) != Ordering::Greater);
        } else if k + 1 == p {
            assert(t[k] == s[k] && t[k + 1] == x);
            assert(s[k] < x);
        } else if k == p {
            assert(t[k] == x && t[k + 1] == s[k]);
        } else {
            assert(t[k] == s[k - 1] && t[k + 1] == s[k]);
            let k0 = k - 1;
            assert(nat_order(keys[s[k0]], keys[s[k0 + 1]]) != Ordering::Greater);
            assert(k0 + 1 == k);
        }
    }
}

/// The natural sort lists every position once, sorted and stable.
pub proof fn lemma_natural_sort(keys: Seq<Seq<char>>, n: nat)
    requires
        n <= keys.len(),
    ensures
        is_permutation(sort_prefix(keys, n), n as int),
        is_sorted_stable(keys, sort_prefix(keys, n)),
        is_sorted(keys, sort_prefix(keys, n)),
        is_stable(keys, sort_prefix(keys, n)),
    decreases n,
{
    if n > 0 {
        let s = sort_prefix(keys, (n - 1) as nat);
        let x = n - 1;
        lemma_natural_sort(keys, (n - 1) as nat);
        let p = insert_pos(keys, s, x, x);
        lemma_insert_pos_bounds(keys, s, x, x);
        if p < x {
            lemma_nat_order_antisym(keys[s[p]], keys[x]);
        }
        lemma_insert_step(keys, s, x);
    }
    lemma_sorted_throughout(keys, sort_prefix(keys, n));
    lemma_stable_throughout(keys, sort_prefix(keys, n));
}

/// The sort of the first `n` keys lists every one of `0..n`.
pub proof fn lemma_sort_prefix_complete(keys: Seq<Seq<char>>, n: nat)
    ensures
        sort_prefix(keys, n).len() == n,
        forall|v: int| 0 <= v < n ==> #[trigger] sort_prefix(keys, n).contains(v),
    decreases n,
{
    if n > 0 {
        let s = sort_prefix(keys, (n - 1) as nat);
        lemma_sort_prefix_complete(keys, (n - 1) as nat);
        let p = insert_pos(keys, s, n - 1, s.len() as int);
        lemma_insert_pos_bounds(keys, s, n - 1, s.len() as int);
        let t = sort_prefix(keys, n);
        assert(t[p] == n - 1);
        assert forall|v: int| 0 <= v < n implies #[trigger] t.contains(v) by {
            if v < n - 1 {
                assert(s.contains(v));
                let k = choose|k: int| 0 <= k < s.len() && s[k] == v;
                if k < p {
                    assert(t[k] == v);
                } else {
                    assert(t[k + 1] == v);
                }
            }
        }
    }
}

/// Sorts the positions of `keys` naturally by key, keeping equal keys in
/// their order in the input.
pub fn natural_order(keys: &Vec<String>) -> (r: Vec<usize>)
    ensures
        r@.map_values(|i: usize| i as int) == natural_sort(keys@.map_values(|s: String| s@)),
        is_permutation(r@.map_values(|i: usize| i as int), keys@.len() as int),
        is_sorted_stable(keys@.map_values(|s: String| s@), r@.map_values(|i: usize| i as int)),
        is_sorted(keys@.map_values(|s: String| s@), r@.map_values(|i: usize| i as int)),
        is_stable(keys@.map_values(|s: String| s@), r@.map_values(|i: usize| i as int)),
{
    let ghost ks = keys@.map_values(|s: String| s@);
    let mut r: Vec<usize> = Vec::new();
    let mut i: usize = 0;
    while i < keys.len()
        invariant
            i <= keys.len(),
            ks == keys@.map_values(|s: String| s@),
            r@.map_values(|v: usize| v as int) == sort_prefix(ks, i as nat),
            is_permutation(r@.map_values(|v: usize| v as int), i as int),
            is_sorted_stable(ks, r@.map_values(|v: usize| v as int)),
            forall|k: int| 0 <= k < r@.len() ==> 0 <= #[trigger] r@[k] < i,
            r@.len() == i,
        decreases keys.len() - i,
    {
        let ghost s = r@.map_values(|v: usize| v as int);
        let mut j: usize = r.len();
        while j > 0 && sorts_after(keys[r[j - 1]].as_str(), keys[i].as_str())
            invariant
                0 <= j <= r@.len(),
                r@.len() == i,
                i < keys.len(),
                ks == keys@.map_values(|s: String| s@),
                s == r@.map_values(|v: usize| v as int),
                forall|k: int| 0 <= k < r@.len() ==> 0 <= #[trigger] r@[k] < i,
                insert_pos(ks, s, i as int, r@.len() as int) == insert_pos(ks, s, i as int, j as int),
                j < r@.len() ==> nat_order(ks[i as int], ks[s[j as int]]) == Ordering::Less,
            decreases j,
        {
            j = j - 1;
        }
        proof {
            lemma_insert_pos_bounds(ks, s, i as int, j as int);
            lemma_insert_step(ks, s, i as int);
        }
        r.insert(j, i);
        assert(r@.map_values(|v: usize| v as int) =~= s.insert(j as int, i as int));
        i = i + 1;
    }
    proof {
        lemma_sorted_throughout(ks, r@.map_values(|v: usize| v as int));
        lemma_stable_throughout(ks, r@.map_values(|v: usize| v as int));
    }
    r
}

} // verus!
