//! Ordering environments for the table: the key of each sort column, and a
//! stable sort by that key in either direction.

use vstd::prelude::*;

use crate::config::{SortColumn, SortConfig};
use crate::model::{EnvironmentView, VagrantEnvironment};
use crate::text::chars_of;

verus! {

/// What `str::to_lowercase` gives for `s` (full Unicode lowercase mapping).
pub uninterp spec fn lowercase_of(s: Seq<char>) -> Seq<char>;

/// `str::to_lowercase`: the string with every character mapped to its
/// Unicode lowercase form. The contract names the result and says nothing
/// more: the mapping is Unicode's table.
#[verifier::external_body]
fn to_lowercase(s: &str) -> (r: String)
    ensures
        r@ == lowercase_of(s@),
{
    s.to_lowercase()
}

/// Lexicographic order on characters, by code point (the order in which
/// `String`'s `Ord` compares: UTF-8 bytes order as code points do).
pub open spec fn lex_lt(a: Seq<char>, b: Seq<char>) -> bool
    decreases a.len(),
{
    if a.len() == 0 {
        b.len() > 0
    } else if b.len() == 0 {
        false
    } else if a[0] != b[0] {
        a[0] < b[0]
    } else {
        lex_lt(a.drop_first(), b.drop_first())
    }
}

/// A sort key: a number, then a text compared when the numbers are equal.
pub open spec fn key_lt(a: (int, Seq<char>), b: (int, Seq<char>)) -> bool {
    a.0 < b.0 || (a.0 == b.0 && lex_lt(a.1, b.1))
}

/// `None` first, then the values in order.
pub open spec fn opt_rank(o: Option<u64>) -> int {
    match o {
        None => 0,
        Some(x) => x + 1,
    }
}

/// The key by which column `col` orders environments: the lowercased name,
/// the VM count, CPU, memory, received bytes, bytes read, the oldest start,
/// or the last change (an absent time before any present one).
pub open spec fn sort_key(e: EnvironmentView, col: SortColumn) -> (int, Seq<char>) {
    match col {
        SortColumn::Name => (0, lowercase_of(e.name)),
        SortColumn::Vms => (e.vms.len() as int, Seq::empty()),
        SortColumn::Cpu => (e.total_cpu_e9 as int, Seq::empty()),
        SortColumn::Mem => (e.total_mem as int, Seq::empty()),
        SortColumn::NetRx => (e.total_net_rx as int, Seq::empty()),
        SortColumn::IoRead => (e.total_blk_read as int, Seq::empty()),
        SortColumn::TimeUp => (opt_rank(e.oldest_started_at), Seq::empty()),
        SortColumn::LastChg => (opt_rank(e.newest_started_at), Seq::empty()),
    }
}

/// Whether key `a` goes strictly before key `b`: smaller when ascending,
/// larger when descending.
pub open spec fn keys_before(a: (int, Seq<char>), b: (int, Seq<char>), ascending: bool) -> bool {
    if ascending {
        key_lt(a, b)
    } else {
        key_lt(b, a)
    }
}

/// Whether `a` goes strictly before `b` under `sort`: a smaller key when
/// ascending, a larger one when descending.
pub open spec fn sorts_before(a: EnvironmentView, b: EnvironmentView, sort: SortConfig) -> bool {
    keys_before(sort_key(a, sort.column), sort_key(b, sort.column), sort.ascending)
}

/// The key of `e` under column `col`, its name taken as already lowercased
/// to `lower`.
pub open spec fn name_key(e: EnvironmentView, col: SortColumn, lower: Seq<char>) -> (int, Seq<char>) {
    match col {
        SortColumn::Name => (0, lower),
        _ => sort_key(e, col),
    }
}

/// The views of a list of strings.
pub open spec fn strings_view(v: Seq<String>) -> Seq<Seq<char>> {
    v.map_values(|s: String| s@)
}

/// `out` holds the environments of `inp` ordered under `sort` when the
/// name of `inp[i]` lowercases to `lowered[i]`, those that neither goes
/// before keeping their order in `inp` (a stable sort).
pub open spec fn sorted_by_names(
    out: Seq<VagrantEnvironment>,
    inp: Seq<VagrantEnvironment>,
    lowered: Seq<Seq<char>>,
    sort: SortConfig,
) -> bool {
    &&& out.len() == inp.len()
    &&& exists|p: Seq<int>|
        #[trigger] is_perm(p, inp.len())
        && (forall|i: int| 0 <= i < out.len() ==> #[trigger] out[i] == inp[p[i]])
        && (forall|i: int, j: int| 0 <= i < j < out.len() ==> !keys_before(
            name_key(#[trigger] out[j]@, sort.column, lowered[p[j]]),
            name_key(#[trigger] out[i]@, sort.column, lowered[p[i]]),
            sort.ascending,
        ))
        && (forall|i: int, j: int| 0 <= i < j < out.len() && !keys_before(
            name_key(#[trigger] out[i]@, sort.column, lowered[p[i]]),
            name_key(#[trigger] out[j]@, sort.column, lowered[p[j]]),
            sort.ascending,
        ) ==> p[i] < p[j])
}

/// `p` lists each index below `n` exactly once.
pub open spec fn is_perm(p: Seq<int>, n: nat) -> bool {
    &&& p.len() == n
    &&& forall|i: int| 0 <= i < p.len() ==> 0 <= #[trigger] p[i] < n
    &&& forall|i: int, j: int| 0 <= i < p.len() && 0 <= j < p.len() && i != j ==> #[trigger] p[i] != #[trigger] p[j]
}

/// `out` holds the environments of `inp` ordered under `sort`, those that
/// neither goes before keeping their order in `inp` (a stable sort).
pub open spec fn stable_sorted(out: Seq<VagrantEnvironment>, inp: Seq<VagrantEnvironment>, sort: SortConfig) -> bool {
    &&& out.len() == inp.len()
    &&& exists|p: Seq<int>|
        #[trigger] is_perm(p, inp.len())
        && (forall|i: int| 0 <= i < out.len() ==> #[trigger] out[i] == inp[p[i]])
        && (forall|i: int, j: int| 0 <= i < j < out.len() ==> !sorts_before(#[trigger] out[j]@, #[trigger] out[i]@, sort))
        && (forall|i: int, j: int| 0 <= i < j < out.len() && !sorts_before(#[trigger] out[i]@, #[trigger] out[j]@, sort)
            ==> p[i] < p[j])
}

// ── Order lemmas ────────────────────────────────────────────────────────────

proof fn lemma_lex_irreflexive(a: Seq<char>)
    ensures
        !lex_lt(a, a),
    decreases a.len(),
{
    if a.len() > 0 {
        lemma_lex_irreflexive(a.drop_first());
    }
}

proof fn lemma_lex_transitive(a: Seq<char>, b: Seq<char>, c: Seq<char>)
    requires
        lex_lt(a, b),
        lex_lt(b, c),
    ensures
        lex_lt(a, c),
    decreases a.len(),
{
    if a.len() > 0 && b.len() > 0 && c.len() > 0 && a[0] == b[0] && b[0] == c[0] {
        lemma_lex_transitive(a.drop_first(), b.drop_first(), c.drop_first());
    }
}

proof fn lemma_lex_total(a: Seq<char>, b: Seq<char>)
    ensures
        a != b ==> lex_lt(a, b) || lex_lt(b, a),
    decreases a.len(),
{
    if a.len() > 0 && b.len() > 0 && a[0] == b[0] {
        lemma_lex_total(a.drop_first(), b.drop_first());
        if a.drop_first() == b.drop_first() {
            assert(a =~= seq![a[0]] + a.drop_first());
            assert(b =~= seq![b[0]] + b.drop_first());
        }
    } else if a.len() == 0 && b.len() == 0 {
        assert(a =~= b);
    } else if a.len() > 0 && b.len() > 0 {
    }
}

proof fn lemma_key_order(a: (int, Seq<char>), b: (int, Seq<char>), c: (int, Seq<char>))
    ensures
        !key_lt(a, a),
        key_lt(a, b) ==> !key_lt(b, a),
        key_lt(a, b) && key_lt(b, c) ==> key_lt(a, c),
        !key_lt(a, b) && !key_lt(b, a) ==> a == b,
{
    lemma_lex_irreflexive(a.1);
    lemma_lex_total(a.1, b.1);
    if lex_lt(a.1, b.1) && lex_lt(b.1, a.1) {
        lemma_lex_transitive(a.1, b.1, a.1);
    }
    if key_lt(a, b) && key_lt(b, c) && a.0 == b.0 && b.0 == c.0 {
        lemma_lex_transitive(a.1, b.1, c.1);
    }
}

proof fn lemma_keys_before_order(a: (int, Seq<char>), b: (int, Seq<char>), c: (int, Seq<char>), asc: bool)
    ensures
        !keys_before(a, a, asc),
        keys_before(a, b, asc) ==> !keys_before(b, a, asc),
        keys_before(a, b, asc) && keys_before(b, c, asc) ==> keys_before(a, c, asc),
        !keys_before(a, b, asc) && !keys_before(b, a, asc) && keys_before(b, c, asc) ==> keys_before(a, c, asc),
        !keys_before(a, b, asc) && !keys_before(b, a, asc) && keys_before(c, b, asc) ==> keys_before(c, a, asc),
        keys_before(a, c, asc) ==> keys_before(a, b, asc) || keys_before(b, c, asc),
{
    lemma_key_order(a, b, c);
    lemma_key_order(c, b, a);
    lemma_key_order(b, a, c);
    lemma_key_order(a, c, b);
    lemma_key_order(b, c, a);
    lemma_key_order(c, a, b);
}

/// Under any sort, "goes before" is a strict order in which environments
/// that neither goes before are interchangeable.
pub proof fn sorts_before_is_strict_weak_order(a: EnvironmentView, b: EnvironmentView, c: EnvironmentView, sort: SortConfig)
    ensures
        !sorts_before(a, a, sort),
        sorts_before(a, b, sort) ==> !sorts_before(b, a, sort),
        sorts_before(a, b, sort) && sorts_before(b, c, sort) ==> sorts_before(a, c, sort),
        !sorts_before(a, b, sort) && !sorts_before(b, a, sort) && sorts_before(b, c, sort) ==> sorts_before(a, c, sort),
        !sorts_before(a, b, sort) && !sorts_before(b, a, sort) && sorts_before(c, b, sort) ==> sorts_before(c, a, sort),
        sorts_before(a, c, sort) ==> sorts_before(a, b, sort) || sorts_before(b, c, sort),
{
    let ka = sort_key(a, sort.column);
    let kb = sort_key(b, sort.column);
    let kc = sort_key(c, sort.column);
    lemma_key_order(ka, kb, kc);
    lemma_key_order(kc, kb, ka);
    lemma_key_order(kb, ka, kc);
    lemma_key_order(ka, kc, kb);
    lemma_key_order(kb, kc, ka);
    lemma_key_order(kc, ka, kb);
}

// ── Executable keys ─────────────────────────────────────────────────────────

/// An executable sort key.
struct Key {
    num: u128,
    text: Vec<char>,
}

impl Key {
    spec fn view(&self) -> (int, Seq<char>) {
        (self.num as int, self.text@)
    }
}

fn opt_key(o: Option<u64>) -> (r: u128)
    ensures
        r as int == opt_rank(o),
{
    match o {
        None => 0,
        Some(x) => x as u128 + 1,
    }
}

fn key_of(e: &VagrantEnvironment, col: SortColumn, lower: &String) -> (r: Key)
    ensures
        r.view() == name_key(e@, col, lower@),
{
    match col {
        SortColumn::Name => Key { num: 0, text: chars_of(lower.as_str()) },
        SortColumn::Vms => Key { num: e.vm_count() as u128, text: Vec::new() },
        SortColumn::Cpu => Key { num: e.total_cpu_e9 as u128, text: Vec::new() },
        SortColumn::Mem => Key { num: e.total_mem as u128, text: Vec::new() },
        SortColumn::NetRx => Key { num: e.total_net_rx as u128, text: Vec::new() },
        SortColumn::IoRead => Key { num: e.total_blk_read as u128, text: Vec::new() },
        SortColumn::TimeUp => Key { num: opt_key(e.oldest_started_at), text: Vec::new() },
        SortColumn::LastChg => Key { num: opt_key(e.newest_started_at), text: Vec::new() },
    }
}

fn lex_less(a: &[char], b: &[char]) -> (r: bool)
    ensures
        r == lex_lt(a@, b@),
{
    let mut i: usize = 0;
    assert(a@.skip(0) =~= a@);
    assert(b@.skip(0) =~= b@);
    loop
        invariant
            i <= a@.len(),
            i <= b@.len(),
            lex_lt(a@, b@) == lex_lt(a@.skip(i as int), b@.skip(i as int)),
        decreases a@.len() - i,
    {
        if i == a.len() {
            return i < b.len();
        }
        if i == b.len() {
            return false;
        }
        if a[i] != b[i] {
            return a[i] < b[i];
        }
        assert(a@.skip(i as int).drop_first() =~= a@.skip(i + 1));
        assert(b@.skip(i as int).drop_first() =~= b@.skip(i + 1));
        i += 1;
    }
}

fn key_less(a: &Key, b: &Key) -> (r: bool)
    ensures
        r == key_lt(a.view(), b.view()),
{
    a.num < b.num || (a.num == b.num && lex_less(a.text.as_slice(), b.text.as_slice()))
}

/// Whether key `a` goes strictly before key `b` in the given direction.
fn key_precedes(a: &Key, b: &Key, ascending: bool) -> (r: bool)
    ensures
        r == (if ascending { key_lt(a.view(), b.view()) } else { key_lt(b.view(), a.view()) }),
{
    if ascending {
        key_less(a, b)
    } else {
        key_less(b, a)
    }
}

/// Sorts `envs` stably under `sort`, taking `lowered[i]` as the lowercased
/// name of `envs[i]` when sorting by name.
pub fn stable_sort_by_names(envs: Vec<VagrantEnvironment>, lowered: Vec<String>, sort: SortConfig) -> (r: Vec<VagrantEnvironment>)
    requires
        lowered@.len() == envs@.len(),
    ensures
        sorted_by_names(r@, envs@, strings_view(lowered@), sort),
{
    let ghost inp = envs@;
    let ghost low = strings_view(lowered@);
    let n = envs.len();
    let mut src = envs;
    let mut names = lowered;
    let mut out: Vec<VagrantEnvironment> = Vec::new();
    let mut keys: Vec<Key> = Vec::new();
    let ghost mut perm: Seq<int> = Seq::empty();
    let mut i: usize = 0;
    assert(inp.subrange(0, n as int) =~= inp);
    assert(strings_view(names@) =~= low.subrange(0, n as int));
    while i < n
        invariant
            n == inp.len(),
            low.len() == n,
            i <= n,
            src@ == inp.subrange(i as int, n as int),
            strings_view(names@) == low.subrange(i as int, n as int),
            out@.len() == i,
            keys@.len() == i,
            perm.len() == i,
            forall|q: int| 0 <= q < i ==> 0 <= #[trigger] perm[q] < i,
            forall|q: int, r: int| 0 <= q < i && 0 <= r < i && q != r ==> #[trigger] perm[q] != #[trigger] perm[r],
            forall|q: int| 0 <= q < i ==> #[trigger] out@[q] == inp[perm[q]],
            forall|q: int| 0 <= q < i ==> #[trigger] keys@[q].view() == name_key(out@[q]@, sort.column, low[perm[q]]),
            forall|q: int, r: int| 0 <= q < r < i ==> !keys_before(#[trigger] keys@[r].view(), #[trigger] keys@[q].view(), sort.ascending),
            forall|q: int, r: int| 0 <= q < r < i && !keys_before(#[trigger] keys@[q].view(), #[trigger] keys@[r].view(), sort.ascending)
                ==> perm[q] < perm[r],
        decreases n - i,
    {
        assert(src@.len() > 0);
        assert(names@.len() == strings_view(names@).len());
        let e = src.remove(0);
        assert(e == inp[i as int]);
        assert(src@ =~= inp.subrange(i + 1, n as int));
        let ghost names_before = names@;
        let lower = names.remove(0);
        assert(lower@ == strings_view(names_before)[0]);
        assert(lower@ == low[i as int]);
        assert(strings_view(names@) =~= low.subrange(i + 1, n as int)) by {
            assert forall|x: int| 0 <= x < names@.len() implies #[trigger] names@[x]@ == low[i + 1 + x] by {
                assert(names@[x] == names_before[x + 1]);
                assert(strings_view(names_before)[x + 1] == low[i + 1 + x]);
            }
        }
        let k = key_of(&e, sort.column, &lower);
        let mut p: usize = 0;
        while p < out.len() && !key_precedes(&k, &keys[p], sort.ascending)
            invariant
                p <= out@.len(),
                out@.len() == i,
                keys@.len() == i,
                forall|q: int| 0 <= q < p ==> !keys_before(k.view(), #[trigger] keys@[q].view(), sort.ascending),
            decreases out@.len() - p,
        {
            p += 1;
        }
        proof {
            if p < i {
                assert(keys_before(k.view(), keys@[p as int].view(), sort.ascending));
            }
        }
        let ghost old_out = out@;
        let ghost old_keys = keys@;
        let ghost old_perm = perm;
        let ghost kv = k.view();
        out.insert(p, e);
        keys.insert(p, k);
        proof {
            perm = perm.insert(p as int, i as int);
            assert forall|q: int| 0 <= q <= i implies #[trigger] keys@[q].view() == (if q < p {
                old_keys[q].view()
            } else if q == p {
                kv
            } else {
                old_keys[q - 1].view()
            }) && out@[q] == (if q < p {
                old_out[q]
            } else if q == p {
                e
            } else {
                old_out[q - 1]
            }) by {}
            assert forall|q: int, r: int| 0 <= q < r <= i implies !keys_before(#[trigger] keys@[r].view(), #[trigger] keys@[q].view(), sort.ascending)
                && (!keys_before(keys@[q].view(), keys@[r].view(), sort.ascending) ==> perm[q] < perm[r]) by {
                if q < p && r < p {
                } else if q < p && r == p {
                } else if q < p && r > p {
                    assert(keys@[r] == old_keys[r - 1]);
                } else if q == p && r > p {
                    let x = old_keys[r - 1].view();
                    let y = old_keys[p as int].view();
                    lemma_keys_before_order(kv, x, y, sort.ascending);
                    lemma_keys_before_order(x, kv, y, sort.ascending);
                    assert(keys_before(kv, y, sort.ascending));
                } else {
                    assert(keys@[q] == old_keys[q - 1]);
                    assert(keys@[r] == old_keys[r - 1]);
                }
            }
        }
        i += 1;
    }
    proof {
        assert(is_perm(perm, inp.len()));
        assert forall|q: int, r: int| 0 <= q < r < out@.len() implies !keys_before(
            name_key(#[trigger] out@[r]@, sort.column, low[perm[r]]),
            name_key(#[trigger] out@[q]@, sort.column, low[perm[q]]),
            sort.ascending,
        ) && (!keys_before(
            name_key(out@[q]@, sort.column, low[perm[q]]),
            name_key(out@[r]@, sort.column, low[perm[r]]),
            sort.ascending,
        ) ==> perm[q] < perm[r]) by {
            assert(keys@[q].view() == name_key(out@[q]@, sort.column, low[perm[q]]));
            assert(keys@[r].view() == name_key(out@[r]@, sort.column, low[perm[r]]));
        }
    }
    out
}

proof fn lemma_sorted_by_lowercase(out: Seq<VagrantEnvironment>, inp: Seq<VagrantEnvironment>, low: Seq<Seq<char>>, sort: SortConfig)
    requires
        sorted_by_names(out, inp, low, sort),
        low.len() == inp.len(),
        forall|i: int| 0 <= i < inp.len() ==> #[trigger] low[i] == lowercase_of(inp[i].name@),
    ensures
        stable_sorted(out, inp, sort),
{
    let p = choose|p: Seq<int>|
        #[trigger] is_perm(p, inp.len())
        && (forall|i: int| 0 <= i < out.len() ==> #[trigger] out[i] == inp[p[i]])
        && (forall|i: int, j: int| 0 <= i < j < out.len() ==> !keys_before(
            name_key(#[trigger] out[j]@, sort.column, low[p[j]]),
            name_key(#[trigger] out[i]@, sort.column, low[p[i]]),
            sort.ascending,
        ))
        && (forall|i: int, j: int| 0 <= i < j < out.len() && !keys_before(
            name_key(#[trigger] out[i]@, sort.column, low[p[i]]),
            name_key(#[trigger] out[j]@, sort.column, low[p[j]]),
            sort.ascending,
        ) ==> p[i] < p[j]);
    assert forall|i: int| 0 <= i < out.len() implies #[trigger] sort_key(out[i]@, sort.column) == name_key(
        out[i]@,
        sort.column,
        low[p[i]],
    ) by {
        assert(out[i] == inp[p[i]]);
        assert(low[p[i]] == lowercase_of(inp[p[i]].name@));
    }
    assert forall|i: int, j: int| 0 <= i < j < out.len() implies !sorts_before(#[trigger] out[j]@, #[trigger] out[i]@, sort) by {
        assert(sort_key(out[i]@, sort.column) == name_key(out[i]@, sort.column, low[p[i]]));
        assert(sort_key(out[j]@, sort.column) == name_key(out[j]@, sort.column, low[p[j]]));
    }
    assert forall|i: int, j: int| 0 <= i < j < out.len() && !sorts_before(#[trigger] out[i]@, #[trigger] out[j]@, sort)
        implies p[i] < p[j] by {
        assert(sort_key(out[i]@, sort.column) == name_key(out[i]@, sort.column, low[p[i]]));
        assert(sort_key(out[j]@, sort.column) == name_key(out[j]@, sort.column, low[p[j]]));
    }
}

/// Sorts `envs` stably under `sort`.
pub fn stable_sort(envs: Vec<VagrantEnvironment>, sort: SortConfig) -> (r: Vec<VagrantEnvironment>)
    ensures
        stable_sorted(r@, envs@, sort),
{
    let mut lowered: Vec<String> = Vec::new();
    let mut i: usize = 0;
    while i < envs.len()
        invariant
            i <= envs@.len(),
            lowered@.len() == i,
            forall|q: int| 0 <= q < i ==> #[trigger] lowered@[q]@ == lowercase_of(envs@[q].name@),
        decreases envs@.len() - i,
    {
        lowered.push(to_lowercase(envs[i].name.as_str()));
        i += 1;
    }
    let ghost inp = envs@;
    let ghost low = strings_view(lowered@);
    let r = stable_sort_by_names(envs, lowered, sort);
    proof {
        lemma_sorted_by_lowercase(r@, inp, low, sort);
    }
    r
}

/// Sorting a sorted table again leaves it as it is.
pub proof fn sorting_sorted_changes_nothing(out: Seq<VagrantEnvironment>, inp: Seq<VagrantEnvironment>, sort: SortConfig)
    requires
        stable_sorted(out, inp, sort),
    ensures
        stable_sorted(out, out, sort),
{
    let id = Seq::new(out.len(), |i: int| i);
    assert(is_perm(id, out.len()));
    assert(forall|i: int| 0 <= i < out.len() ==> #[trigger] out[i] == out[id[i]]);
}

/// Whether `a` comes no later than `b` as a time that may be absent: an
/// absent time before any present one.
pub open spec fn time_le(a: Option<u64>, b: Option<u64>) -> bool {
    match (a, b) {
        (Some(x), Some(y)) => x <= y,
        (Some(_), None) => false,
        (None, _) => true,
    }
}

/// A sorted table follows its column: for any two rows, the earlier one's
/// value is at most the later one's when ascending, at least when
/// descending. The values are the VM count, the CPU usage, the memory in
/// use, the bytes received, the bytes read, the oldest start and the last
/// change (an absent time first), or the lowercased name in code point
/// order.
pub proof fn sorted_tables_follow_the_column(
    out: Seq<VagrantEnvironment>,
    inp: Seq<VagrantEnvironment>,
    sort: SortConfig,
    i: int,
    j: int,
)
    requires
        stable_sorted(out, inp, sort),
        0 <= i < j < out.len(),
    ensures
        ({
            let x = if sort.ascending { out[i]@ } else { out[j]@ };
            let y = if sort.ascending { out[j]@ } else { out[i]@ };
            match sort.column {
                SortColumn::Name => !lex_lt(lowercase_of(y.name), lowercase_of(x.name)),
                SortColumn::Vms => x.vms.len() <= y.vms.len(),
                SortColumn::Cpu => x.total_cpu_e9 <= y.total_cpu_e9,
                SortColumn::Mem => x.total_mem <= y.total_mem,
                SortColumn::NetRx => x.total_net_rx <= y.total_net_rx,
                SortColumn::IoRead => x.total_blk_read <= y.total_blk_read,
                SortColumn::TimeUp => time_le(x.oldest_started_at, y.oldest_started_at),
                SortColumn::LastChg => time_le(x.newest_started_at, y.newest_started_at),
            }
        }),
{
    assert(!sorts_before(out[j]@, out[i]@, sort));
}

/// Names are compared at their first difference: `a` goes before `b`
/// exactly when, after a common prefix, `a` ends while `b` goes on, or
/// `a`'s next character has the smaller code point.
pub proof fn lex_order_is_first_difference(a: Seq<char>, b: Seq<char>)
    ensures
        lex_lt(a, b) <==> exists|k: int|
            0 <= k <= a.len() && k <= b.len() && #[trigger] a.take(k) == b.take(k) && (
            (k == a.len() && k < b.len()) || (k < a.len() && k < b.len() && a[k] < b[k])),
    decreases a.len(),
{
    if a.len() == 0 {
        if b.len() > 0 {
            assert(a.take(0) =~= b.take(0));
        }
    } else if b.len() == 0 {
    } else if a[0] != b[0] {
        assert(a.take(0) =~= b.take(0));
        if exists|k: int| 0 <= k <= a.len() && k <= b.len() && #[trigger] a.take(k) == b.take(k) && (
            (k == a.len() && k < b.len()) || (k < a.len() && k < b.len() && a[k] < b[k])) {
            let k = choose|k: int| 0 <= k <= a.len() && k <= b.len() && #[trigger] a.take(k) == b.take(k) && (
                (k == a.len() && k < b.len()) || (k < a.len() && k < b.len() && a[k] < b[k]));
            if k > 0 {
                assert(a.take(k)[0] == b.take(k)[0]);
            }
        }
    } else {
        let a1 = a.drop_first();
        let b1 = b.drop_first();
        lex_order_is_first_difference(a1, b1);
        if lex_lt(a, b) {
            let k = choose|k: int| 0 <= k <= a1.len() && k <= b1.len() && #[trigger] a1.take(k) == b1.take(k) && (
                (k == a1.len() && k < b1.len()) || (k < a1.len() && k < b1.len() && a1[k] < b1[k]));
            assert(a.take(k + 1) =~= seq![a[0]] + a1.take(k));
            assert(b.take(k + 1) =~= seq![b[0]] + b1.take(k));
        }
        if exists|k: int| 0 <= k <= a.len() && k <= b.len() && #[trigger] a.take(k) == b.take(k) && (
            (k == a.len() && k < b.len()) || (k < a.len() && k < b.len() && a[k] < b[k])) {
            let k = choose|k: int| 0 <= k <= a.len() && k <= b.len() && #[trigger] a.take(k) == b.take(k) && (
                (k == a.len() && k < b.len()) || (k < a.len() && k < b.len() && a[k] < b[k]));
            assert(k > 0);
            assert(a1.take(k - 1) =~= a.take(k).drop_first());
            assert(b1.take(k - 1) =~= b.take(k).drop_first());
            assert(a1.take(k - 1) == b1.take(k - 1));
        }
    }
}

} // verus!
