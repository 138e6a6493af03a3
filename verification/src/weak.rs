//! Weak-unit analysis: aggregate the error marks of a finished exercise into
//! per-unit counts (characters, words, phrases), keep the units that occur
//! often enough and fail often enough, and rank them by error rate.

use crate::text::chars_eq;
use crate::text::string_from_chars;
use crate::types::spec_error_rate_milli;
use crate::types::UnitType;
use crate::types::WeakUnit;
use vstd::prelude::*;

verus! {

/// One occurrence of a unit in the target text: its characters, its
/// category, and whether any of its positions carried an error mark.
pub struct UnitOcc {
    pub content: Vec<char>,
    pub unit_type: UnitType,
    pub has_error: bool,
}

/// A unit aggregated over all its occurrences.
pub struct UnitAcc {
    pub content: Vec<char>,
    pub unit_type: UnitType,
    pub total: usize,
    pub errors: usize,
}

/// How often a unit with characters `c` occurs in `occs`.
pub open spec fn count_occ(occs: Seq<UnitOcc>, c: Seq<char>) -> nat
    decreases occs.len(),
{
    if occs.len() == 0 {
        0
    } else {
        (if occs[0].content@ == c {
            1nat
        } else {
            0nat
        }) + count_occ(occs.drop_first(), c)
    }
}

/// How often a unit with characters `c` occurs erroneously in `occs`.
pub open spec fn count_err(occs: Seq<UnitOcc>, c: Seq<char>) -> nat
    decreases occs.len(),
{
    if occs.len() == 0 {
        0
    } else {
        (if occs[0].content@ == c && occs[0].has_error {
            1nat
        } else {
            0nat
        }) + count_err(occs.drop_first(), c)
    }
}

/// The category of the first occurrence of `c` in `occs`.
pub open spec fn first_type(occs: Seq<UnitOcc>, c: Seq<char>) -> UnitType
    decreases occs.len(),
{
    if occs.len() == 0 {
        UnitType::Character
    } else if occs[0].content@ == c {
        occs[0].unit_type
    } else {
        first_type(occs.drop_first(), c)
    }
}

proof fn lemma_count_occ_push(occs: Seq<UnitOcc>, o: UnitOcc, c: Seq<char>)
    ensures
        count_occ(occs.push(o), c) == count_occ(occs, c) + (if o.content@ == c {
            1nat
        } else {
            0nat
        }),
        count_err(occs.push(o), c) == count_err(occs, c) + (if o.content@ == c && o.has_error {
            1nat
        } else {
            0nat
        }),
        first_type(occs.push(o), c) == (if count_occ(occs, c) > 0 {
            first_type(occs, c)
        } else if o.content@ == c {
            o.unit_type
        } else {
            UnitType::Character
        }),
    decreases occs.len(),
{
    if occs.len() == 0 {
        assert(occs.push(o)[0] == o);
        assert(occs.push(o).drop_first() =~= Seq::<UnitOcc>::empty());
        assert(count_occ(occs.push(o).drop_first(), c) == 0);
        assert(count_err(occs.push(o).drop_first(), c) == 0);
        assert(count_occ(occs, c) == 0);
        assert(count_err(occs, c) == 0);
        assert(first_type(occs, c) == UnitType::Character);
        assert(first_type(Seq::<UnitOcc>::empty(), c) == UnitType::Character);
        if o.content@ == c {
            assert(first_type(occs.push(o), c) == o.unit_type);
        } else {
            assert(first_type(occs.push(o), c) == first_type(occs.push(o).drop_first(), c));
        }
    } else {
        assert(occs.push(o)[0] == occs[0]);
        assert(occs.push(o).drop_first() =~= occs.drop_first().push(o));
        lemma_count_occ_push(occs.drop_first(), o, c);
        if occs[0].content@ == c {
            assert(first_type(occs.push(o), c) == occs[0].unit_type);
            assert(first_type(occs, c) == occs[0].unit_type);
            assert(count_occ(occs, c) > 0);
        } else {
            assert(first_type(occs.push(o), c) == first_type(occs.drop_first().push(o), c));
            assert(first_type(occs, c) == first_type(occs.drop_first(), c));
            assert(count_occ(occs, c) == count_occ(occs.drop_first(), c));
        }
        assert(count_occ(occs.push(o), c) == (if occs[0].content@ == c {
            1nat
        } else {
            0nat
        }) + count_occ(occs.drop_first().push(o), c));
        assert(count_err(occs.push(o), c) == (if occs[0].content@ == c && occs[0].has_error {
            1nat
        } else {
            0nat
        }) + count_err(occs.drop_first().push(o), c));
    }
}

/// A positive count means some occurrence has these characters.
proof fn lemma_count_occ_pos_exists(occs: Seq<UnitOcc>, c: Seq<char>)
    requires
        count_occ(occs, c) > 0,
    ensures
        exists|i: int| 0 <= i < occs.len() && occs[i].content@ == c,
    decreases occs.len(),
{
    if occs[0].content@ == c {
        assert(occs[0].content@ == c);
    } else {
        lemma_count_occ_pos_exists(occs.drop_first(), c);
        let i = choose|i: int|
            0 <= i < occs.drop_first().len() && occs.drop_first()[i].content@ == c;
        assert(occs[i + 1].content@ == c);
    }
}

/// The characters of `v`, copied.
pub fn copy_chars(v: &Vec<char>) -> (r: Vec<char>)
    ensures
        r@ == v@,
{
    let mut r: Vec<char> = Vec::new();
    let mut i: usize = 0;
    while i < v.len()
        invariant
            i <= v@.len(),
            r@ == v@.take(i as int),
        decreases v@.len() - i,
    {
        r.push(v[i]);
        proof {
            assert(v@.take(i + 1) =~= v@.take(i as int).push(v@[i as int]));
        }
        i = i + 1;
    }
    proof {
        assert(v@.take(v@.len() as int) =~= v@);
    }
    r
}

proof fn lemma_count_err_le_occ(occs: Seq<UnitOcc>, c: Seq<char>)
    ensures
        count_err(occs, c) <= count_occ(occs, c),
        count_occ(occs, c) <= occs.len(),
    decreases occs.len(),
{
    if occs.len() > 0 {
        lemma_count_err_le_occ(occs.drop_first(), c);
    }
}

/// Group the occurrences `occs` by their characters: one entry per distinct
/// unit, with its exact occurrence and error counts and the category of its
/// first occurrence.
pub fn aggregate_units(occs: &Vec<UnitOcc>) -> (r: Vec<UnitAcc>)
    ensures
        forall|j: int|
            0 <= j < r@.len() ==> {
                &&& r@[j].total == count_occ(occs@, r@[j].content@)
                &&& r@[j].errors == count_err(occs@, r@[j].content@)
                &&& r@[j].unit_type == first_type(occs@, r@[j].content@)
                &&& r@[j].errors <= r@[j].total
                &&& r@[j].total > 0
            },
        forall|j: int, k: int|
            0 <= j < k < r@.len() ==> r@[j].content@ != r@[k].content@,
        forall|i: int| #![trigger occs@[i].content@]
            0 <= i < occs@.len() ==> (exists|j: int| #![trigger r@[j].content@]
                0 <= j < r@.len() && r@[j].content@ == occs@[i].content@),
{
    let n = occs.len();
    let mut r: Vec<UnitAcc> = Vec::new();
    let mut i: usize = 0;
    while i < n
        invariant
            i <= n,
            n == occs@.len(),
            forall|j: int|
                0 <= j < r@.len() ==> {
                    &&& r@[j].total == count_occ(occs@.take(i as int), r@[j].content@)
                    &&& r@[j].errors == count_err(occs@.take(i as int), r@[j].content@)
                    &&& r@[j].unit_type == first_type(occs@.take(i as int), r@[j].content@)
                    &&& r@[j].errors <= r@[j].total
                    &&& r@[j].total > 0
                },
            forall|j: int, k: int|
                0 <= j < k < r@.len() ==> r@[j].content@ != r@[k].content@,
            forall|p: int| #![trigger occs@[p].content@]
                0 <= p < i ==> (exists|j: int| #![trigger r@[j].content@]
                    0 <= j < r@.len() && r@[j].content@ == occs@[p].content@),
        decreases n - i,
    {
        let ghost pre = occs@.take(i as int);
        proof {
            assert(occs@.take(i + 1) =~= occs@.take(i as int).push(occs@[i as int]));
        }
        let occ = &occs[i];
        let mut j: usize = 0;
        let rn = r.len();
        let mut found: bool = false;
        while j < rn && !found
            invariant
                i < n,
                n == occs@.len(),
                j <= rn,
                rn == r@.len(),
                !found ==> forall|q: int| 0 <= q < j ==> r@[q].content@ != occ.content@,
                found ==> j < rn && r@[j as int].content@ == occ.content@,
                occ == &occs@[i as int],
            decreases rn - j + (if found {
                0int
            } else {
                1int
            }),
        {
            if chars_eq(&r[j].content, &occ.content) {
                found = true;
            } else {
                j = j + 1;
            }
        }
        proof {
            lemma_count_err_le_occ(pre, occs@[i as int].content@);
            if !found && count_occ(pre, occs@[i as int].content@) > 0 {
                lemma_count_occ_pos_exists(pre, occs@[i as int].content@);
            }
        }
        let ghost old_r = r@;
        if found {
            let total0 = r[j].total;
            let errors0 = r[j].errors;
            let updated = UnitAcc {
                content: copy_chars(&r[j].content),
                unit_type: r[j].unit_type,
                total: total0 + 1,
                errors: if occ.has_error {
                    errors0 + 1
                } else {
                    errors0
                },
            };
            r.set(j, updated);
        } else {
            let fresh = UnitAcc {
                content: copy_chars(&occ.content),
                unit_type: occ.unit_type,
                total: 1,
                errors: if occ.has_error {
                    1
                } else {
                    0
                },
            };
            r.push(fresh);
        }
        proof {
            assert forall|jj: int| 0 <= jj < r@.len() implies {
                &&& r@[jj].total == count_occ(occs@.take(i + 1), r@[jj].content@)
                &&& r@[jj].errors == count_err(occs@.take(i + 1), r@[jj].content@)
                &&& r@[jj].unit_type == first_type(occs@.take(i + 1), r@[jj].content@)
            } by {
                lemma_count_occ_push(pre, occs@[i as int], r@[jj].content@);
            }
            let jw: int = if found {
                j as int
            } else {
                r@.len() - 1
            };
            assert(r@[jw].content@ == occs@[i as int].content@);
            assert forall|p: int| #![trigger occs@[p].content@] 0 <= p < i + 1 implies (
            exists|j2: int| #![trigger r@[j2].content@]
                0 <= j2 < r@.len() && r@[j2].content@ == occs@[p].content@) by {
                if p < i {
                    let j0 = choose|j0: int|
                        0 <= j0 < old_r.len() && old_r[j0].content@ == occs@[p].content@;
                    assert(r@[j0].content@ == occs@[p].content@);
                } else {
                    assert(r@[jw].content@ == occs@[p].content@);
                }
            }
        }
        i = i + 1;
    }
    proof {
        assert(occs@.take(n as int) =~= occs@);
    }
    r
}

/// Whether a unit is weak enough to report: at least three occurrences and
/// an error rate above fifteen per cent.
pub open spec fn spec_qualifies(total: nat, errors: nat) -> bool {
    total >= 3 && errors * 100 > 15 * total
}

/// How many entries of `accs` qualify.
pub open spec fn count_qualifying(accs: Seq<UnitAcc>) -> nat
    decreases accs.len(),
{
    if accs.len() == 0 {
        0
    } else {
        (if spec_qualifies(accs[0].total as nat, accs[0].errors as nat) {
            1nat
        } else {
            0nat
        }) + count_qualifying(accs.drop_first())
    }
}

/// Descending order by exact error rate: `a` fails at least as often as `b`.
pub open spec fn rate_ge(a: WeakUnit, b: WeakUnit) -> bool {
    a.error_count * b.total_count >= b.error_count * a.total_count
}

/// `u` faithfully reports one qualifying entry of `accs`.
pub open spec fn sound_unit(u: WeakUnit, accs: Seq<UnitAcc>) -> bool {
    &&& (exists|i: int| 0 <= i < accs.len() && matches_acc(u, #[trigger] accs[i]))
    &&& spec_qualifies(u.total_count as nat, u.error_count as nat)
    &&& u.error_count <= u.total_count
    &&& u.error_rate_milli == spec_error_rate_milli(u.error_count as nat, u.total_count as nat)
}

/// `u` carries the characters, category and counts of `a`.
pub open spec fn matches_acc(u: WeakUnit, a: UnitAcc) -> bool {
    &&& u.content@ == a.content@
    &&& u.unit_type == a.unit_type
    &&& u.error_count == a.errors
    &&& u.total_count == a.total
}

proof fn lemma_count_qualifying_push(accs: Seq<UnitAcc>, a: UnitAcc)
    ensures
        count_qualifying(accs.push(a)) == count_qualifying(accs) + (if spec_qualifies(
            a.total as nat,
            a.errors as nat,
        ) {
            1nat
        } else {
            0nat
        }),
    decreases accs.len(),
{
    if accs.len() == 0 {
        assert(accs.push(a)[0] == a);
        assert(accs.push(a).drop_first() =~= Seq::<UnitAcc>::empty());
        assert(count_qualifying(accs.push(a).drop_first()) == 0);
        assert(count_qualifying(accs) == 0);
    } else {
        assert(accs.push(a)[0] == accs[0]);
        assert(accs.push(a).drop_first() =~= accs.drop_first().push(a));
        lemma_count_qualifying_push(accs.drop_first(), a);
        assert(count_qualifying(accs.push(a)) == (if spec_qualifies(
            accs[0].total as nat,
            accs[0].errors as nat,
        ) {
            1nat
        } else {
            0nat
        }) + count_qualifying(accs.drop_first().push(a)));
    }
}

/// Whether `a` fails at least as often as `b`, by exact rational comparison.
fn rate_at_least(a: &WeakUnit, b: &WeakUnit) -> (r: bool)
    ensures
        r == rate_ge(*a, *b),
{
    let x: u128 = a.error_count as u128;
    let y: u128 = b.total_count as u128;
    let z: u128 = b.error_count as u128;
    let w: u128 = a.total_count as u128;
    proof {
        let cap: int = 0xFFFF_FFFF_FFFF_FFFF;
        assert(x * y <= cap * cap && z * w <= cap * cap) by (nonlinear_arith)
            requires
                0 <= x <= cap,
                0 <= y <= cap,
                0 <= z <= cap,
                0 <= w <= cap,
        ;
    }
    x * y >= z * w
}

/// `a` is reported by some element of `u`.
pub open spec fn reported_in(u: Seq<WeakUnit>, a: UnitAcc) -> bool {
    exists|j: int| 0 <= j < u.len() && matches_acc(#[trigger] u[j], a)
}

/// The index of a unit whose error rate is highest.
fn max_rate_index(pool: &Vec<WeakUnit>) -> (b: usize)
    requires
        pool@.len() > 0,
        forall|q: int| 0 <= q < pool@.len() ==> #[trigger] pool@[q].total_count > 0,
    ensures
        b < pool@.len(),
        forall|q: int| 0 <= q < pool@.len() ==> rate_ge(pool@[b as int], #[trigger] pool@[q]),
{
    let mut best: usize = 0;
    let mut k: usize = 1;
    while k < pool.len()
        invariant
            best < k,
            k <= pool@.len(),
            forall|q: int| 0 <= q < pool@.len() ==> #[trigger] pool@[q].total_count > 0,
            forall|q: int| 0 <= q < k ==> rate_ge(pool@[best as int], #[trigger] pool@[q]),
        decreases pool@.len() - k,
    {
        if rate_at_least(&pool[k], &pool[best]) {
            proof {
                assert forall|q: int| 0 <= q < k + 1 implies rate_ge(
                    pool@[k as int],
                    #[trigger] pool@[q],
                ) by {
                    if q < k {
                        lemma_rate_ge_trans(pool@[k as int], pool@[best as int], pool@[q]);
                    }
                }
            }
            best = k;
        }
        k = k + 1;
    }
    best
}

/// Moving the best unit from the pool to the ranked output keeps every
/// qualifying entry reported, keeps the output sorted and dominant over the
/// pool, and keeps both sides sound.
proof fn lemma_after_move(
    accs: Seq<UnitAcc>,
    old_out: Seq<WeakUnit>,
    old_pool: Seq<WeakUnit>,
    out: Seq<WeakUnit>,
    pool: Seq<WeakUnit>,
    best: int,
)
    requires
        0 <= best < old_pool.len(),
        out == old_out.push(old_pool[best]),
        pool == old_pool.update(best, old_pool.last()).drop_last(),
        forall|q: int| 0 <= q < old_pool.len() ==> rate_ge(
            old_pool[best],
            #[trigger] old_pool[q],
        ),
        forall|j: int, q: int|
            0 <= j < old_out.len() && 0 <= q < old_pool.len() ==> rate_ge(
                #[trigger] old_out[j],
                #[trigger] old_pool[q],
            ),
        forall|j: int, k: int| 0 <= j < k < old_out.len() ==> rate_ge(old_out[j], old_out[k]),
        forall|j: int| 0 <= j < old_pool.len() ==> sound_unit(#[trigger] old_pool[j], accs),
        forall|j: int| 0 <= j < old_out.len() ==> sound_unit(#[trigger] old_out[j], accs),
        forall|p: int|
            0 <= p < accs.len() && spec_qualifies(
                accs[p].total as nat,
                accs[p].errors as nat,
            ) ==> reported_in(old_out, #[trigger] accs[p]) || reported_in(old_pool, accs[p]),
    ensures
        forall|j: int, q: int|
            0 <= j < out.len() && 0 <= q < pool.len() ==> rate_ge(
                #[trigger] out[j],
                #[trigger] pool[q],
            ),
        forall|j: int, k: int| 0 <= j < k < out.len() ==> rate_ge(out[j], out[k]),
        forall|j: int| 0 <= j < pool.len() ==> sound_unit(#[trigger] pool[j], accs),
        forall|j: int| 0 <= j < out.len() ==> sound_unit(#[trigger] out[j], accs),
        forall|p: int|
            0 <= p < accs.len() && spec_qualifies(
                accs[p].total as nat,
                accs[p].errors as nat,
            ) ==> reported_in(out, #[trigger] accs[p]) || reported_in(pool, accs[p]),
{
    assert forall|q: int| 0 <= q < pool.len() implies #[trigger] pool[q] == old_pool[q] || pool[q]
        == old_pool[old_pool.len() - 1] by {}
    assert forall|p: int|
        0 <= p < accs.len() && spec_qualifies(
            accs[p].total as nat,
            accs[p].errors as nat,
        ) implies reported_in(out, #[trigger] accs[p]) || reported_in(pool, accs[p]) by {
        if reported_in(old_out, accs[p]) {
            let j0 = choose|j0: int| 0 <= j0 < old_out.len() && matches_acc(old_out[j0], accs[p]);
            assert(matches_acc(out[j0], accs[p]));
        } else {
            let j0 = choose|j0: int|
                0 <= j0 < old_pool.len() && matches_acc(old_pool[j0], accs[p]);
            if j0 == best {
                assert(matches_acc(out[out.len() - 1], accs[p]));
            } else if j0 == old_pool.len() - 1 {
                if best < old_pool.len() - 1 {
                    assert(matches_acc(pool[best], accs[p]));
                } else {
                    assert(matches_acc(out[out.len() - 1], accs[p]));
                }
            } else {
                assert(matches_acc(pool[j0], accs[p]));
            }
        }
    }
}

/// The qualifying entries of `accs`, as reportable units with their exact
/// error rate, in order of appearance.
fn collect_qualifying(accs: &Vec<UnitAcc>) -> (pool: Vec<WeakUnit>)
    requires
        forall|j: int| 0 <= j < accs@.len() ==> #[trigger] accs@[j].errors <= accs@[j].total,
    ensures
        pool@.len() == count_qualifying(accs@),
        forall|j: int| 0 <= j < pool@.len() ==> sound_unit(#[trigger] pool@[j], accs@),
        forall|p: int|
            0 <= p < accs@.len() && spec_qualifies(
                accs@[p].total as nat,
                accs@[p].errors as nat,
            ) ==> reported_in(pool@, #[trigger] accs@[p]),
{
    let n = accs.len();
    let mut pool: Vec<WeakUnit> = Vec::new();
    let mut i: usize = 0;
    while i < n
        invariant
            i <= n,
            n == accs@.len(),
            forall|j: int| 0 <= j < accs@.len() ==> #[trigger] accs@[j].errors <= accs@[j].total,
            pool@.len() == count_qualifying(accs@.take(i as int)),
            forall|j: int| 0 <= j < pool@.len() ==> sound_unit(#[trigger] pool@[j], accs@),
            forall|p: int|
                0 <= p < i && spec_qualifies(
                    accs@[p].total as nat,
                    accs@[p].errors as nat,
                ) ==> reported_in(pool@, #[trigger] accs@[p]),
        decreases n - i,
    {
        proof {
            assert(accs@.take(i + 1) =~= accs@.take(i as int).push(accs@[i as int]));
            lemma_count_qualifying_push(accs@.take(i as int), accs@[i as int]);
        }
        let ghost old_pool = pool@;
        let a = &accs[i];
        let qualifies = a.total >= 3 && (a.errors as u128) * 100 > 15 * (a.total as u128);
        if qualifies {
            let mut u = WeakUnit {
                content: string_from_chars(&a.content),
                unit_type: a.unit_type,
                error_count: a.errors,
                total_count: a.total,
                error_rate_milli: 0,
            };
            u.calculate_error_rate();
            pool.push(u);
            proof {
                assert(matches_acc(pool@[pool@.len() - 1], accs@[i as int]));
            }
        }
        proof {
            assert forall|p: int|
                0 <= p < i + 1 && spec_qualifies(
                    accs@[p].total as nat,
                    accs@[p].errors as nat,
                ) implies reported_in(pool@, #[trigger] accs@[p]) by {
                if p < i {
                    let j0 = choose|j0: int|
                        0 <= j0 < old_pool.len() && matches_acc(old_pool[j0], accs@[p]);
                    assert(matches_acc(pool@[j0], accs@[p]));
                } else {
                    assert(matches_acc(pool@[pool@.len() - 1], accs@[p]));
                }
            }
        }
        i = i + 1;
    }
    proof {
        assert(accs@.take(n as int) =~= accs@);
    }
    pool
}

/// Keep the qualifying units of `accs` (at least three occurrences, error
/// rate above fifteen per cent), rank them by error rate, highest first, and
/// keep at most the top ten. When at most ten qualify, every qualifying
/// entry is reported.
pub fn build_weak_units_from_stats(accs: &Vec<UnitAcc>) -> (r: Vec<WeakUnit>)
    requires
        forall|j: int| 0 <= j < accs@.len() ==> #[trigger] accs@[j].errors <= accs@[j].total,
    ensures
        r@.len() == (if count_qualifying(accs@) > 10 {
            10nat
        } else {
            count_qualifying(accs@)
        }),
        forall|j: int| 0 <= j < r@.len() ==> sound_unit(#[trigger] r@[j], accs@),
        forall|j: int, k: int| 0 <= j < k < r@.len() ==> rate_ge(r@[j], r@[k]),
        count_qualifying(accs@) <= 10 ==> (forall|i: int|
            0 <= i < accs@.len() && spec_qualifies(
                accs@[i].total as nat,
                accs@[i].errors as nat,
            ) ==> reported_in(r@, #[trigger] accs@[i])),
{
    let mut pool = collect_qualifying(accs);
    let ghost count_q = count_qualifying(accs@);
    let mut out: Vec<WeakUnit> = Vec::new();
    proof {
        assert forall|p: int|
            0 <= p < accs@.len() && spec_qualifies(
                accs@[p].total as nat,
                accs@[p].errors as nat,
            ) implies reported_in(out@, #[trigger] accs@[p]) || reported_in(pool@, accs@[p]) by {
            let j0 = choose|j0: int|
                0 <= j0 < pool@.len() && matches_acc(#[trigger] pool@[j0], accs@[p]);
            assert(matches_acc(pool@[j0], accs@[p]));
        }
    }
    while out.len() < 10 && pool.len() > 0
        invariant
            out@.len() + pool@.len() == count_q,
            count_q == count_qualifying(accs@),
            out@.len() <= 10,
            forall|j: int| 0 <= j < accs@.len() ==> #[trigger] accs@[j].errors <= accs@[j].total,
            forall|j: int| 0 <= j < pool@.len() ==> sound_unit(#[trigger] pool@[j], accs@),
            forall|j: int| 0 <= j < out@.len() ==> sound_unit(#[trigger] out@[j], accs@),
            forall|j: int, k: int| 0 <= j < k < out@.len() ==> rate_ge(out@[j], out@[k]),
            forall|j: int, q: int|
                0 <= j < out@.len() && 0 <= q < pool@.len() ==> rate_ge(
                    #[trigger] out@[j],
                    #[trigger] pool@[q],
                ),
            forall|p: int|
                0 <= p < accs@.len() && spec_qualifies(
                    accs@[p].total as nat,
                    accs@[p].errors as nat,
                ) ==> reported_in(out@, #[trigger] accs@[p]) || reported_in(pool@, accs@[p]),
        decreases pool@.len(),
    {
        let best = max_rate_index(&pool);
        let ghost old_out = out@;
        let ghost old_pool = pool@;
        let u = pool.swap_remove(best);
        out.push(u);
        proof {
            lemma_after_move(accs@, old_out, old_pool, out@, pool@, best as int);
        }
    }
    out
}

/// Transitivity of the exact rate comparison, over positive totals.
proof fn lemma_rate_ge_trans(a: WeakUnit, b: WeakUnit, c: WeakUnit)
    requires
        rate_ge(a, b),
        rate_ge(b, c),
        a.total_count > 0,
        b.total_count > 0,
        c.total_count > 0,
    ensures
        rate_ge(a, c),
{
    let ae = a.error_count as int;
    let at = a.total_count as int;
    let be = b.error_count as int;
    let bt = b.total_count as int;
    let ce = c.error_count as int;
    let ct = c.total_count as int;
    assert(ae * ct * bt >= ce * at * bt) by (nonlinear_arith)
        requires
            ae * bt >= be * at,
            be * ct >= ce * bt,
            at > 0,
            bt > 0,
            ct > 0,
    ;
    assert(ae * ct >= ce * at) by (nonlinear_arith)
        requires
            ae * ct * bt >= ce * at * bt,
            bt > 0,
    ;
}


/// Parallel spec-level description of an occurrence list: the characters of
/// each occurrence, whether each was erroneous, and each one's category.
/// How often content `c` occurs in the content list `cs`.
pub open spec fn occ_total(cs: Seq<Seq<char>>, c: Seq<char>) -> nat
    decreases cs.len(),
{
    if cs.len() == 0 {
        0
    } else {
        (if cs[0] == c {
            1nat
        } else {
            0nat
        }) + occ_total(cs.drop_first(), c)
    }
}

/// How often content `c` occurs erroneously.
pub open spec fn occ_errs(cs: Seq<Seq<char>>, errs: Seq<bool>, c: Seq<char>) -> nat
    decreases cs.len(),
{
    if cs.len() == 0 {
        0
    } else {
        (if cs[0] == c && errs[0] {
            1nat
        } else {
            0nat
        }) + occ_errs(cs.drop_first(), errs.drop_first(), c)
    }
}

/// The category of the first occurrence of `c`.
pub open spec fn occ_type(cs: Seq<Seq<char>>, ts: Seq<UnitType>, c: Seq<char>) -> UnitType
    decreases cs.len(),
{
    if cs.len() == 0 {
        UnitType::Character
    } else if cs[0] == c {
        ts[0]
    } else {
        occ_type(cs.drop_first(), ts.drop_first(), c)
    }
}

/// An occurrence vector realizes the parallel spec description.
pub open spec fn occs_match(
    occs: Seq<UnitOcc>,
    cs: Seq<Seq<char>>,
    errs: Seq<bool>,
    ts: Seq<UnitType>,
) -> bool {
    &&& occs.len() == cs.len()
    &&& errs.len() == cs.len()
    &&& ts.len() == cs.len()
    &&& forall|i: int|
        0 <= i < occs.len() ==> {
            &&& (#[trigger] occs[i]).content@ == cs[i]
            &&& occs[i].has_error == errs[i]
            &&& occs[i].unit_type == ts[i]
        }
}

/// Counting over a realized occurrence vector equals counting over its spec
/// description.
proof fn lemma_counts_transfer(
    occs: Seq<UnitOcc>,
    cs: Seq<Seq<char>>,
    errs: Seq<bool>,
    ts: Seq<UnitType>,
    c: Seq<char>,
)
    requires
        occs_match(occs, cs, errs, ts),
    ensures
        count_occ(occs, c) == occ_total(cs, c),
        count_err(occs, c) == occ_errs(cs, errs, c),
        first_type(occs, c) == occ_type(cs, ts, c),
    decreases occs.len(),
{
    if occs.len() > 0 {
        assert(occs_match(occs.drop_first(), cs.drop_first(), errs.drop_first(), ts.drop_first()));
        lemma_counts_transfer(occs.drop_first(), cs.drop_first(), errs.drop_first(), ts.drop_first(), c);
    }
}

/// What the ranked weak-unit list of an occurrence description holds: exact
/// counts and rate per reported unit, the thresholds respected, descending
/// order, at most ten entries, and, when fewer than ten are reported, every
/// qualifying unit among them.
pub open spec fn spec_weak_units_ok(
    r: Seq<WeakUnit>,
    cs: Seq<Seq<char>>,
    errs: Seq<bool>,
    ts: Seq<UnitType>,
) -> bool {
    &&& forall|j: int|
        0 <= j < r.len() ==> {
            let c = (#[trigger] r[j]).content@;
            &&& r[j].total_count == occ_total(cs, c)
            &&& r[j].error_count == occ_errs(cs, errs, c)
            &&& r[j].unit_type == occ_type(cs, ts, c)
            &&& spec_qualifies(r[j].total_count as nat, r[j].error_count as nat)
            &&& r[j].error_count <= r[j].total_count
            &&& r[j].error_rate_milli == spec_error_rate_milli(
                r[j].error_count as nat,
                r[j].total_count as nat,
            )
        }
    &&& forall|j: int, k: int| 0 <= j < k < r.len() ==> rate_ge(r[j], r[k])
    &&& r.len() <= 10
    &&& (r.len() < 10 ==> (forall|c: Seq<char>|
        #[trigger] occ_total(cs, c) >= 3 && occ_errs(cs, errs, c) * 100 > 15 * occ_total(cs, c)
            ==> (exists|j: int| 0 <= j < r.len() && (#[trigger] r[j]).content@ == c)))
}

/// Aggregate, filter and rank a realized occurrence vector.
fn rank_occurrences(
    occs: &Vec<UnitOcc>,
    Ghost(cs): Ghost<Seq<Seq<char>>>,
    Ghost(errs): Ghost<Seq<bool>>,
    Ghost(ts): Ghost<Seq<UnitType>>,
) -> (r: Vec<WeakUnit>)
    requires
        occs_match(occs@, cs, errs, ts),
    ensures
        spec_weak_units_ok(r@, cs, errs, ts),
{
    let accs = aggregate_units(occs);
    let r = build_weak_units_from_stats(&accs);
    proof {
        assert forall|j: int| 0 <= j < r@.len() implies {
            let c = (#[trigger] r@[j]).content@;
            &&& r@[j].total_count == occ_total(cs, c)
            &&& r@[j].error_count == occ_errs(cs, errs, c)
            &&& r@[j].unit_type == occ_type(cs, ts, c)
        } by {
            assert(sound_unit(r@[j], accs@));
            let i = choose|i: int| 0 <= i < accs@.len() && matches_acc(r@[j], accs@[i]);
            lemma_counts_transfer(occs@, cs, errs, ts, accs@[i].content@);
        }
        if r@.len() < 10 {
            assert(count_qualifying(accs@) == r@.len());
            assert forall|c: Seq<char>|
                #[trigger] occ_total(cs, c) >= 3 && occ_errs(cs, errs, c) * 100 > 15 * occ_total(
                    cs,
                    c,
                ) implies (exists|j: int|
                0 <= j < r@.len() && (#[trigger] r@[j]).content@ == c) by {
                lemma_counts_transfer(occs@, cs, errs, ts, c);
                lemma_count_occ_pos_exists(occs@, c);
                let p = choose|p: int| 0 <= p < occs@.len() && occs@[p].content@ == c;
                let ja = choose|ja: int|
                    0 <= ja < accs@.len() && accs@[ja].content@ == occs@[p].content@;
                assert(accs@[ja].total == count_occ(occs@, c));
                assert(accs@[ja].errors == count_err(occs@, c));
                assert(spec_qualifies(accs@[ja].total as nat, accs@[ja].errors as nat));
                assert(reported_in(r@, accs@[ja]));
                let jr = choose|jr: int| 0 <= jr < r@.len() && matches_acc(r@[jr], accs@[ja]);
                assert(r@[jr].content@ == c);
            }
        }
    }
    r
}


/// One single-character unit per target position.
pub open spec fn char_contents(s: Seq<char>) -> Seq<Seq<char>> {
    Seq::new(s.len(), |i: int| seq![s[i]])
}

pub open spec fn char_types(s: Seq<char>) -> Seq<UnitType> {
    Seq::new(s.len(), |i: int| UnitType::Character)
}

/// One occurrence per target position: the character there, erroneous when
/// its position is marked.
fn char_occurrences(target: &Vec<char>, flags: &Vec<bool>) -> (r: Vec<UnitOcc>)
    requires
        flags@.len() == target@.len(),
    ensures
        occs_match(r@, char_contents(target@), flags@, char_types(target@)),
{
    let n = target.len();
    let mut r: Vec<UnitOcc> = Vec::new();
    let mut i: usize = 0;
    while i < n
        invariant
            i <= n,
            n == target@.len(),
            n == flags@.len(),
            r@.len() == i,
            forall|k: int|
                0 <= k < i ==> {
                    &&& (#[trigger] r@[k]).content@ == seq![target@[k]]
                    &&& r@[k].has_error == flags@[k]
                    &&& r@[k].unit_type == UnitType::Character
                },
        decreases n - i,
    {
        let mut content: Vec<char> = Vec::new();
        content.push(target[i]);
        proof {
            assert(content@ =~= seq![target@[i as int]]);
        }
        r.push(UnitOcc { content, unit_type: UnitType::Character, has_error: flags[i] });
        i = i + 1;
    }
    r
}

/// The ranked weak units of a target at character granularity.
pub fn character_weak_units(target: &Vec<char>, flags: &Vec<bool>) -> (r: Vec<WeakUnit>)
    requires
        flags@.len() == target@.len(),
    ensures
        spec_weak_units_ok(r@, char_contents(target@), flags@, char_types(target@)),
{
    let occs = char_occurrences(target, flags);
    rank_occurrences(
        &occs,
        Ghost(char_contents(target@)),
        Ghost(flags@),
        Ghost(char_types(target@)),
    )
}

/// An ASCII character.
pub open spec fn spec_is_ascii(c: char) -> bool {
    c <= '\u{7F}'
}

/// Whether positions `i` and `i + 1` form a counted two-ideograph pair:
/// neither ASCII nor whitespace on either side.
pub open spec fn bigram_at(s: Seq<char>, i: int) -> bool {
    &&& 0 <= i
    &&& i + 1 < s.len()
    &&& !spec_is_ascii(s[i])
    &&& !spec_is_ascii(s[i + 1])
    &&& !crate::text::spec_is_space(s[i])
    &&& !crate::text::spec_is_space(s[i + 1])
}

/// The positions from `i` on where a counted pair begins, ascending.
pub open spec fn bigram_positions_from(s: Seq<char>, i: int) -> Seq<int>
    decreases s.len() - i,
{
    if i + 1 >= s.len() {
        Seq::empty()
    } else {
        (if bigram_at(s, i) {
            seq![i]
        } else {
            Seq::<int>::empty()
        }) + bigram_positions_from(s, i + 1)
    }
}

pub open spec fn bigram_contents(s: Seq<char>) -> Seq<Seq<char>> {
    bigram_positions_from(s, 0).map_values(|p: int| seq![s[p], s[p + 1]])
}

pub open spec fn bigram_errs(s: Seq<char>, flags: Seq<bool>) -> Seq<bool> {
    bigram_positions_from(s, 0).map_values(|p: int| flags[p] || flags[p + 1])
}

pub open spec fn bigram_types(s: Seq<char>) -> Seq<UnitType> {
    bigram_positions_from(s, 0).map_values(|p: int| UnitType::Phrase)
}

/// One occurrence per counted two-ideograph pair.
fn bigram_occurrences(target: &Vec<char>, flags: &Vec<bool>) -> (r: Vec<UnitOcc>)
    requires
        flags@.len() == target@.len(),
    ensures
        occs_match(
            r@,
            bigram_contents(target@),
            bigram_errs(target@, flags@),
            bigram_types(target@),
        ),
{
    let n = target.len();
    let ghost s = target@;
    let mut r: Vec<UnitOcc> = Vec::new();
    let ghost mut done: Seq<int> = Seq::empty();
    let m: usize = if n == 0 {
        0
    } else {
        n - 1
    };
    let mut i: usize = 0;
    proof {
        assert(bigram_positions_from(s, 0) =~= done + bigram_positions_from(s, 0));
    }
    while i < m
        invariant
            i <= m,
            m + 1 == n || (m == 0 && n == 0),
            n == target@.len(),
            n == flags@.len(),
            s == target@,
            bigram_positions_from(s, 0) == done + bigram_positions_from(s, i as int),
            r@.len() == done.len(),
            forall|k: int|
                0 <= k < done.len() ==> {
                    &&& 0 <= #[trigger] done[k]
                    &&& done[k] + 1 < s.len()
                    &&& r@[k].content@ == seq![s[done[k]], s[done[k] + 1]]
                    &&& r@[k].has_error == (flags@[done[k]] || flags@[done[k] + 1])
                    &&& r@[k].unit_type == UnitType::Phrase
                },
        decreases m - i,
    {
        let ghost prev = done;
        let c1 = target[i];
        let c2 = target[i + 1];
        let keep = !(c1 <= '\u{7F}') && !(c2 <= '\u{7F}') && !crate::text::is_space(c1)
            && !crate::text::is_space(c2);
        proof {
            assert(keep == bigram_at(s, i as int));
        }
        if keep {
            let mut content: Vec<char> = Vec::new();
            content.push(c1);
            content.push(c2);
            proof {
                assert(content@ =~= seq![s[i as int], s[i + 1]]);
            }
            r.push(
                UnitOcc {
                    content,
                    unit_type: UnitType::Phrase,
                    has_error: flags[i] || flags[i + 1],
                },
            );
            proof {
                done = done.push(i as int);
            }
        }
        proof {
            let pos_i = bigram_positions_from(s, i as int);
            assert(pos_i == (if bigram_at(s, i as int) {
                seq![i as int]
            } else {
                Seq::<int>::empty()
            }) + bigram_positions_from(s, i + 1));
            if keep {
                assert(prev + pos_i =~= done + bigram_positions_from(s, i + 1));
                assert(bigram_positions_from(s, 0) == done + bigram_positions_from(s, i + 1));
            } else {
                assert(pos_i =~= bigram_positions_from(s, i + 1));
            }
        }
        i = i + 1;
    }
    proof {
        assert(bigram_positions_from(s, i as int) =~= Seq::<int>::empty());
        assert(done =~= bigram_positions_from(s, 0));
        assert forall|k: int| 0 <= k < r@.len() implies {
            &&& (#[trigger] r@[k]).content@ == bigram_contents(s)[k]
            &&& r@[k].has_error == bigram_errs(s, flags@)[k]
            &&& r@[k].unit_type == bigram_types(s)[k]
        } by {
            assert(bigram_contents(s)[k] == seq![s[done[k]], s[done[k] + 1]]);
        }
    }
    r
}

/// The ranked weak units for a Chinese target: single characters plus
/// adjacent two-ideograph pairs.
pub fn chinese_weak_units(target: &Vec<char>, flags: &Vec<bool>) -> (r: Vec<WeakUnit>)
    requires
        flags@.len() == target@.len(),
    ensures
        spec_weak_units_ok(
            r@,
            char_contents(target@) + bigram_contents(target@),
            flags@ + bigram_errs(target@, flags@),
            char_types(target@) + bigram_types(target@),
        ),
{
    let mut occs = char_occurrences(target, flags);
    let mut pairs = bigram_occurrences(target, flags);
    let ghost n1 = occs@.len();
    occs.append(&mut pairs);
    proof {
        let cs = char_contents(target@) + bigram_contents(target@);
        let errs = flags@ + bigram_errs(target@, flags@);
        let ts = char_types(target@) + bigram_types(target@);
        assert forall|k: int| 0 <= k < occs@.len() implies {
            &&& (#[trigger] occs@[k]).content@ == cs[k]
            &&& occs@[k].has_error == errs[k]
            &&& occs@[k].unit_type == ts[k]
        } by {
            if k < n1 {
            } else {
            }
        }
    }
    rank_occurrences(
        &occs,
        Ghost(char_contents(target@) + bigram_contents(target@)),
        Ghost(flags@ + bigram_errs(target@, flags@)),
        Ghost(char_types(target@) + bigram_types(target@)),
    )
}


/// Whether a word (a maximal run of non-whitespace characters) begins at `i`.
pub open spec fn is_word_start(s: Seq<char>, i: int) -> bool {
    &&& 0 <= i < s.len()
    &&& !crate::text::spec_is_space(s[i])
    &&& (i == 0 || crate::text::spec_is_space(s[i - 1]))
}

/// The first position at or after `i` that ends the current run: the next
/// whitespace character, or the end of the text.
pub open spec fn run_end(s: Seq<char>, i: int) -> int
    decreases s.len() - i,
{
    if i >= s.len() {
        s.len() as int
    } else if crate::text::spec_is_space(s[i]) {
        i
    } else {
        run_end(s, i + 1)
    }
}

/// The positions from `i` on where a word begins, ascending.
pub open spec fn word_starts_from(s: Seq<char>, i: int) -> Seq<int>
    decreases s.len() - i,
{
    if i >= s.len() {
        Seq::empty()
    } else {
        (if is_word_start(s, i) {
            seq![i]
        } else {
            Seq::<int>::empty()
        }) + word_starts_from(s, i + 1)
    }
}

/// Whether any of the flags in `[a, b)` is set.
pub open spec fn spec_any_flag(flags: Seq<bool>, a: int, b: int) -> bool {
    exists|p: int| a <= p < b && flags[p]
}

pub open spec fn word_contents(s: Seq<char>) -> Seq<Seq<char>> {
    word_starts_from(s, 0).map_values(|st: int| s.subrange(st, run_end(s, st)))
}

pub open spec fn word_errs(s: Seq<char>, flags: Seq<bool>) -> Seq<bool> {
    word_starts_from(s, 0).map_values(|st: int| spec_any_flag(flags, st, run_end(s, st)))
}

pub open spec fn word_types(s: Seq<char>) -> Seq<UnitType> {
    word_starts_from(s, 0).map_values(|st: int| UnitType::Word)
}

/// Whether the character at `i` is counted on its own: neither alphanumeric
/// nor whitespace.
pub open spec fn punct_at(s: Seq<char>, i: int) -> bool {
    &&& 0 <= i < s.len()
    &&& !crate::text::alnum(s[i])
    &&& !crate::text::spec_is_space(s[i])
}

/// The positions from `i` on of characters counted on their own, ascending.
pub open spec fn punct_positions_from(s: Seq<char>, i: int) -> Seq<int>
    decreases s.len() - i,
{
    if i >= s.len() {
        Seq::empty()
    } else {
        (if punct_at(s, i) {
            seq![i]
        } else {
            Seq::<int>::empty()
        }) + punct_positions_from(s, i + 1)
    }
}

pub open spec fn punct_contents(s: Seq<char>) -> Seq<Seq<char>> {
    punct_positions_from(s, 0).map_values(|p: int| seq![s[p]])
}

pub open spec fn punct_errs(s: Seq<char>, flags: Seq<bool>) -> Seq<bool> {
    punct_positions_from(s, 0).map_values(|p: int| flags[p])
}

pub open spec fn punct_types(s: Seq<char>) -> Seq<UnitType> {
    punct_positions_from(s, 0).map_values(|p: int| UnitType::Character)
}

/// One occurrence per word of the target, with its characters and whether
/// any of its positions was marked.
fn word_occurrences(target: &Vec<char>, flags: &Vec<bool>) -> (r: Vec<UnitOcc>)
    requires
        flags@.len() == target@.len(),
    ensures
        occs_match(r@, word_contents(target@), word_errs(target@, flags@), word_types(target@)),
{
    let n = target.len();
    let ghost s = target@;
    let mut r: Vec<UnitOcc> = Vec::new();
    let ghost mut done: Seq<int> = Seq::empty();
    let mut i: usize = 0;
    proof {
        assert(word_starts_from(s, 0) =~= done + word_starts_from(s, 0));
    }
    while i < n
        invariant
            i <= n,
            n == target@.len(),
            n == flags@.len(),
            s == target@,
            word_starts_from(s, 0) == done + word_starts_from(s, i as int),
            r@.len() == done.len(),
            forall|k: int|
                0 <= k < done.len() ==> {
                    &&& is_word_start(s, #[trigger] done[k])
                    &&& r@[k].content@ == s.subrange(done[k], run_end(s, done[k]))
                    &&& r@[k].has_error == spec_any_flag(flags@, done[k], run_end(s, done[k]))
                    &&& r@[k].unit_type == UnitType::Word
                },
        decreases n - i,
    {
        let ghost prev = done;
        let starts_here = !crate::text::is_space(target[i]) && (i == 0 || crate::text::is_space(
            target[i - 1],
        ));
        proof {
            assert(starts_here == is_word_start(s, i as int));
        }
        if starts_here {
            // Find the end of the run.
            let mut j: usize = i;
            while j < n && !crate::text::is_space(target[j])
                invariant
                    i <= j <= n,
                    n == target@.len(),
                    s == target@,
                    run_end(s, i as int) == run_end(s, j as int),
                decreases n - j,
            {
                j = j + 1;
            }
            let end = j;
            proof {
                assert(run_end(s, end as int) == end as int);
                assert(run_end(s, i as int) == end as int);
            }
            // Whether any position of the word is marked.
            let mut he: bool = false;
            let mut k: usize = i;
            while k < end
                invariant
                    i <= k <= end,
                    end <= flags@.len(),
                    he == spec_any_flag(flags@, i as int, k as int),
                decreases end - k,
            {
                let fk = flags[k];
                proof {
                    if fk {
                        assert(spec_any_flag(flags@, i as int, k + 1));
                    } else if he {
                        let p = choose|p: int| i <= p < k && flags@[p];
                        assert(i <= p < k + 1 && flags@[p]);
                    } else {
                        assert forall|p: int| i <= p < k + 1 implies !flags@[p] by {}
                    }
                }
                he = he || fk;
                k = k + 1;
            }
            // The characters of the word.
            let mut content: Vec<char> = Vec::new();
            let mut q: usize = i;
            while q < end
                invariant
                    i <= q <= end,
                    end <= target@.len(),
                    s == target@,
                    content@ == s.subrange(i as int, q as int),
                decreases end - q,
            {
                content.push(target[q]);
                proof {
                    assert(s.subrange(i as int, q + 1) =~= s.subrange(i as int, q as int).push(
                        s[q as int],
                    ));
                }
                q = q + 1;
            }
            r.push(UnitOcc { content, unit_type: UnitType::Word, has_error: he });
            proof {
                done = done.push(i as int);
            }
        }
        proof {
            let starts_i = word_starts_from(s, i as int);
            assert(starts_i == (if is_word_start(s, i as int) {
                seq![i as int]
            } else {
                Seq::<int>::empty()
            }) + word_starts_from(s, i + 1));
            if starts_here {
                assert(prev + starts_i =~= done + word_starts_from(s, i + 1));
                assert(word_starts_from(s, 0) == done + word_starts_from(s, i + 1));
            } else {
                assert(starts_i =~= word_starts_from(s, i + 1));
            }
        }
        i = i + 1;
    }
    proof {
        assert(word_starts_from(s, i as int) =~= Seq::<int>::empty());
        assert(done =~= word_starts_from(s, 0));
        assert forall|k: int| 0 <= k < r@.len() implies {
            &&& (#[trigger] r@[k]).content@ == word_contents(s)[k]
            &&& r@[k].has_error == word_errs(s, flags@)[k]
            &&& r@[k].unit_type == word_types(s)[k]
        } by {
            assert(word_contents(s)[k] == s.subrange(done[k], run_end(s, done[k])));
        }
    }
    r
}

/// One occurrence per character that is neither alphanumeric nor whitespace.
fn punct_occurrences(target: &Vec<char>, flags: &Vec<bool>) -> (r: Vec<UnitOcc>)
    requires
        flags@.len() == target@.len(),
    ensures
        occs_match(
            r@,
            punct_contents(target@),
            punct_errs(target@, flags@),
            punct_types(target@),
        ),
{
    let n = target.len();
    let ghost s = target@;
    let mut r: Vec<UnitOcc> = Vec::new();
    let ghost mut done: Seq<int> = Seq::empty();
    let mut i: usize = 0;
    proof {
        assert(punct_positions_from(s, 0) =~= done + punct_positions_from(s, 0));
    }
    while i < n
        invariant
            i <= n,
            n == target@.len(),
            n == flags@.len(),
            s == target@,
            punct_positions_from(s, 0) == done + punct_positions_from(s, i as int),
            r@.len() == done.len(),
            forall|k: int|
                0 <= k < done.len() ==> {
                    &&& 0 <= #[trigger] done[k]
                    &&& done[k] < s.len()
                    &&& r@[k].content@ == seq![s[done[k]]]
                    &&& r@[k].has_error == flags@[done[k]]
                    &&& r@[k].unit_type == UnitType::Character
                },
        decreases n - i,
    {
        let ghost prev = done;
        let ghost old_r = r@;
        let c = target[i];
        let keep = !crate::text::is_alnum(c) && !crate::text::is_space(c);
        proof {
            assert(keep == punct_at(s, i as int));
        }
        if keep {
            let mut content: Vec<char> = Vec::new();
            content.push(c);
            proof {
                assert(content@ =~= seq![s[i as int]]);
            }
            r.push(UnitOcc { content, unit_type: UnitType::Character, has_error: flags[i] });
            proof {
                done = done.push(i as int);
                assert(done[done.len() - 1] == i as int);
                assert(r@[r@.len() - 1].content@ == seq![s[i as int]]);
                assert(r@[r@.len() - 1].has_error == flags@[i as int]);
            }
        }
        proof {
            let pos_i = punct_positions_from(s, i as int);
            assert(pos_i == (if punct_at(s, i as int) {
                seq![i as int]
            } else {
                Seq::<int>::empty()
            }) + punct_positions_from(s, i + 1));
            if keep {
                assert(prev + pos_i =~= done + punct_positions_from(s, i + 1));
                assert(punct_positions_from(s, 0) == done + punct_positions_from(s, i + 1));
            } else {
                assert(pos_i =~= punct_positions_from(s, i + 1));
            }
            assert forall|k: int| 0 <= k < done.len() implies {
                &&& 0 <= #[trigger] done[k]
                &&& done[k] < s.len()
                &&& r@[k].content@ == seq![s[done[k]]]
                &&& r@[k].has_error == flags@[done[k]]
                &&& r@[k].unit_type == UnitType::Character
            } by {
                if k < prev.len() {
                    assert(done[k] == prev[k]);
                    assert(r@[k] == old_r[k]);
                } else {
                    assert(done[k] == i as int);
                    assert(r@[k] == r@[r@.len() - 1]);
                }
            }
        }
        i = i + 1;
    }
    proof {
        assert(punct_positions_from(s, i as int) =~= Seq::<int>::empty());
        assert(done =~= punct_positions_from(s, 0));
        assert forall|k: int| 0 <= k < r@.len() implies {
            &&& (#[trigger] r@[k]).content@ == punct_contents(s)[k]
            &&& r@[k].has_error == punct_errs(s, flags@)[k]
            &&& r@[k].unit_type == punct_types(s)[k]
        } by {
            assert(punct_contents(s)[k] == seq![s[done[k]]]);
        }
    }
    r
}

/// The ranked weak units for an alphabetic target: whitespace-delimited
/// words, plus punctuation and symbol characters tracked on their own.
pub fn english_weak_units(target: &Vec<char>, flags: &Vec<bool>) -> (r: Vec<WeakUnit>)
    requires
        flags@.len() == target@.len(),
    ensures
        spec_weak_units_ok(
            r@,
            word_contents(target@) + punct_contents(target@),
            word_errs(target@, flags@) + punct_errs(target@, flags@),
            word_types(target@) + punct_types(target@),
        ),
{
    let mut occs = word_occurrences(target, flags);
    let mut puncts = punct_occurrences(target, flags);
    let ghost n1 = occs@.len();
    occs.append(&mut puncts);
    proof {
        let cs = word_contents(target@) + punct_contents(target@);
        let errs = word_errs(target@, flags@) + punct_errs(target@, flags@);
        let ts = word_types(target@) + punct_types(target@);
        assert forall|k: int| 0 <= k < occs@.len() implies {
            &&& (#[trigger] occs@[k]).content@ == cs[k]
            &&& occs@[k].has_error == errs[k]
            &&& occs@[k].unit_type == ts[k]
        } by {
            if k < n1 {
            } else {
            }
        }
    }
    rank_occurrences(
        &occs,
        Ghost(word_contents(target@) + punct_contents(target@)),
        Ghost(word_errs(target@, flags@) + punct_errs(target@, flags@)),
        Ghost(word_types(target@) + punct_types(target@)),
    )
}

} // verus!
