//! The pure part of lesson management: merging built-in and user lessons by
//! id, and looking lessons up. Reading lesson files from disk or from the
//! embedded archive is the surrounding application's business; it hands the
//! parsed lessons in and gets the merged, ordered list back.

use crate::text::str_eq;
use crate::types::Lesson;
use crate::types::LessonType;
use vstd::prelude::*;

verus! {

/// Whether some lesson of `s` carries the id `id`.
pub open spec fn has_id(s: Seq<Lesson>, id: u32) -> bool {
    exists|j: int| 0 <= j < s.len() && (#[trigger] s[j]).id == id
}

/// Whether `l` is one of the lessons of `s`.
pub open spec fn is_entry_of(l: Lesson, s: Seq<Lesson>) -> bool {
    exists|j: int| 0 <= j < s.len() && #[trigger] s[j] == l
}

/// Strictly ascending ids: sorted, and no id twice.
pub open spec fn sorted_by_id(s: Seq<Lesson>) -> bool {
    forall|j: int, k: int| 0 <= j < k < s.len() ==> (#[trigger] s[j]).id < (#[trigger] s[k]).id
}

/// Place `l` into the id-sorted `r`: replace the lesson with the same id if
/// one is there, insert at the right place otherwise.
fn insert_lesson(r: &mut Vec<Lesson>, l: Lesson)
    requires
        sorted_by_id(old(r)@),
    ensures
        sorted_by_id(final(r)@),
        is_entry_of(l, final(r)@),
        has_id(final(r)@, l.id),
        forall|k: int|
            0 <= k < final(r)@.len() ==> (#[trigger] final(r)@[k]) == l || (is_entry_of(
                final(r)@[k],
                old(r)@,
            ) && final(r)@[k].id != l.id),
        forall|k: int|
            0 <= k < old(r)@.len() && (#[trigger] old(r)@[k]).id != l.id ==> is_entry_of(
                old(r)@[k],
                final(r)@,
            ),
{
    let n = r.len();
    let mut i: usize = 0;
    while i < n && r[i].id < l.id
        invariant
            i <= n,
            n == r@.len(),
            r@ == old(r)@,
            sorted_by_id(r@),
            forall|k: int| 0 <= k < i ==> (#[trigger] r@[k]).id < l.id,
        decreases n - i,
    {
        i = i + 1;
    }
    if i < n && r[i].id == l.id {
        let ghost pre = r@;
        r.set(i, l);
        proof {
            assert(r@[i as int] == l);
            assert forall|k: int|
                0 <= k < pre.len() && (#[trigger] pre[k]).id != l.id implies is_entry_of(
                pre[k],
                r@,
            ) by {
                assert(r@[k] == pre[k]);
            }
            assert forall|k: int|
                0 <= k < r@.len() implies (#[trigger] r@[k]) == l || (is_entry_of(r@[k], pre)
                && r@[k].id != l.id) by {
                if k != i {
                    assert(r@[k] == pre[k]);
                }
            }
        }
    } else {
        let ghost pre = r@;
        r.insert(i, l);
        proof {
            assert(r@[i as int] == l);
            assert forall|j: int, k: int| 0 <= j < k < r@.len() implies (#[trigger] r@[j]).id < (
            #[trigger] r@[k]).id by {
                if j < i && k > i {
                    assert(r@[j] == pre[j]);
                    assert(r@[k] == pre[k - 1]);
                } else if k == i && j < i {
                    assert(r@[j] == pre[j]);
                } else if j == i && k > i {
                    assert(r@[k] == pre[k - 1]);
                    assert(pre[k - 1].id >= l.id);
                    assert(pre[k - 1].id != l.id);
                } else if j < i && k < i {
                    assert(r@[j] == pre[j]);
                    assert(r@[k] == pre[k]);
                } else {
                    assert(j > i || k > i);
                    if j > i {
                        assert(r@[j] == pre[j - 1]);
                        assert(r@[k] == pre[k - 1]);
                    }
                }
            }
            assert forall|k: int|
                0 <= k < pre.len() && (#[trigger] pre[k]).id != l.id implies is_entry_of(
                pre[k],
                r@,
            ) by {
                if k < i {
                    assert(r@[k] == pre[k]);
                } else {
                    assert(r@[k + 1] == pre[k]);
                }
            }
            assert forall|k: int|
                0 <= k < r@.len() implies (#[trigger] r@[k]) == l || (is_entry_of(r@[k], pre)
                && r@[k].id != l.id) by {
                if k < i {
                    assert(r@[k] == pre[k]);
                    assert(pre[k].id < l.id);
                } else if k > i {
                    assert(r@[k] == pre[k - 1]);
                    assert(pre[k - 1].id >= l.id);
                    assert(pre[k - 1].id != l.id);
                }
            }
        }
    }
}

/// Merge the built-in lessons with the user's: one lesson per id, a user
/// lesson shadowing any built-in lesson with its id, and the result ordered
/// by ascending id.
pub fn merge_lessons(builtin: Vec<Lesson>, user: Vec<Lesson>) -> (r: Vec<Lesson>)
    ensures
        sorted_by_id(r@),
        forall|k: int|
            0 <= k < r@.len() && has_id(user@, (#[trigger] r@[k]).id) ==> is_entry_of(
                r@[k],
                user@,
            ),
        forall|k: int|
            0 <= k < r@.len() ==> is_entry_of(#[trigger] r@[k], user@) || is_entry_of(
                r@[k],
                builtin@,
            ),
        forall|j: int| 0 <= j < builtin@.len() ==> has_id(r@, (#[trigger] builtin@[j]).id),
        forall|j: int| 0 <= j < user@.len() ==> has_id(r@, (#[trigger] user@[j]).id),
{
    let mut r: Vec<Lesson> = Vec::new();
    let mut rest = builtin;
    let ghost ball = rest@;
    let total_b = rest.len();
    let mut i: usize = 0;
    while rest.len() > 0
        invariant
            total_b == ball.len(),
            i + rest@.len() == ball.len(),
            rest@ == ball.skip(i as int),
            sorted_by_id(r@),
            forall|k: int| 0 <= k < r@.len() ==> is_entry_of(#[trigger] r@[k], ball),
            forall|j: int| 0 <= j < i ==> has_id(r@, (#[trigger] ball[j]).id),
        decreases rest@.len(),
    {
        let ghost pre = r@;
        let l = rest.remove(0);
        proof {
            assert(l == ball[i as int]);
            assert(ball.skip(i as int).drop_first() =~= ball.skip(i + 1));
            assert(rest@ =~= ball.skip(i as int).subrange(1, ball.skip(i as int).len() as int));
        }
        insert_lesson(&mut r, l);
        proof {
            assert forall|k: int| 0 <= k < r@.len() implies is_entry_of(#[trigger] r@[k], ball) by {
                if r@[k] == l {
                    assert(ball[i as int] == l);
                } else {
                    let j0 = choose|j0: int| 0 <= j0 < pre.len() && pre[j0] == r@[k];
                    assert(is_entry_of(r@[k], ball));
                }
            }
            assert forall|j: int| 0 <= j < i + 1 implies has_id(r@, (#[trigger] ball[j]).id) by {
                if j < i {
                    let k0 = choose|k0: int| 0 <= k0 < pre.len() && (pre[k0]).id == ball[j].id;
                    if pre[k0].id != l.id {
                        assert(is_entry_of(pre[k0], r@));
                        let k1 = choose|k1: int| 0 <= k1 < r@.len() && r@[k1] == pre[k0];
                        assert(r@[k1].id == ball[j].id);
                    } else {
                        let k1 = choose|k1: int| 0 <= k1 < r@.len() && r@[k1] == l;
                        assert(r@[k1].id == ball[j].id);
                    }
                } else {
                    let k1 = choose|k1: int| 0 <= k1 < r@.len() && r@[k1] == l;
                    assert(r@[k1].id == ball[j].id);
                }
            }
        }
        i = i + 1;
    }
    proof {
        assert(i == ball.len());
        assert forall|j: int| 0 <= j < ball.len() implies has_id(r@, (#[trigger] ball[j]).id) by {}
    }
    let mut rest2 = user;
    let ghost uall = rest2@;
    let total_u = rest2.len();
    let mut u: usize = 0;
    while rest2.len() > 0
        invariant
            total_u == uall.len(),
            u + rest2@.len() == uall.len(),
            rest2@ == uall.skip(u as int),
            sorted_by_id(r@),
            forall|k: int|
                0 <= k < r@.len() ==> is_entry_of(#[trigger] r@[k], uall.take(u as int))
                    || is_entry_of(r@[k], ball),
            forall|k: int|
                0 <= k < r@.len() && has_id(uall.take(u as int), (#[trigger] r@[k]).id)
                    ==> is_entry_of(r@[k], uall.take(u as int)),
            forall|j: int| 0 <= j < ball.len() ==> has_id(r@, (#[trigger] ball[j]).id),
            forall|j: int| 0 <= j < u ==> has_id(r@, (#[trigger] uall[j]).id),
        decreases rest2@.len(),
    {
        let ghost pre = r@;
        let l = rest2.remove(0);
        proof {
            assert(l == uall[u as int]);
            assert(uall.skip(u as int).drop_first() =~= uall.skip(u + 1));
            assert(rest2@ =~= uall.skip(u as int).subrange(1, uall.skip(u as int).len() as int));
            assert(uall.take(u + 1) =~= uall.take(u as int).push(l));
        }
        insert_lesson(&mut r, l);
        proof {
            assert(uall.take(u + 1)[u as int] == l);
            assert forall|k: int|
                0 <= k < r@.len() implies is_entry_of(#[trigger] r@[k], uall.take(u + 1))
                || is_entry_of(r@[k], ball) by {
                if r@[k] == l {
                } else {
                    let j0 = choose|j0: int| 0 <= j0 < pre.len() && pre[j0] == r@[k];
                    if is_entry_of(pre[j0], uall.take(u as int)) {
                        let j1 = choose|j1: int|
                            0 <= j1 < uall.take(u as int).len() && uall.take(u as int)[j1]
                                == pre[j0];
                        assert(uall.take(u + 1)[j1] == pre[j0]);
                    }
                }
            }
            assert forall|k: int|
                0 <= k < r@.len() && has_id(uall.take(u + 1), (#[trigger] r@[k]).id) implies
            is_entry_of(r@[k], uall.take(u + 1)) by {
                if r@[k] == l {
                } else {
                    assert(is_entry_of(r@[k], pre) && r@[k].id != l.id);
                    if has_id(uall.take(u as int), r@[k].id) {
                        let j0 = choose|j0: int| 0 <= j0 < pre.len() && pre[j0] == r@[k];
                        assert(is_entry_of(pre[j0], uall.take(u as int)));
                        let j1 = choose|j1: int|
                            0 <= j1 < uall.take(u as int).len() && uall.take(u as int)[j1]
                                == pre[j0];
                        assert(uall.take(u + 1)[j1] == r@[k]);
                    } else {
                        let j2 = choose|j2: int|
                            0 <= j2 < uall.take(u + 1).len() && (#[trigger] uall.take(
                                u + 1,
                            )[j2]).id == r@[k].id;
                        assert(j2 == u as int);
                        assert(false);
                    }
                }
            }
            assert forall|j: int| 0 <= j < ball.len() implies has_id(
                r@,
                (#[trigger] ball[j]).id,
            ) by {
                let k0 = choose|k0: int| 0 <= k0 < pre.len() && (pre[k0]).id == ball[j].id;
                if pre[k0].id != l.id {
                    assert(is_entry_of(pre[k0], r@));
                    let k1 = choose|k1: int| 0 <= k1 < r@.len() && r@[k1] == pre[k0];
                    assert(r@[k1].id == ball[j].id);
                } else {
                    let k1 = choose|k1: int| 0 <= k1 < r@.len() && r@[k1] == l;
                    assert(r@[k1].id == ball[j].id);
                }
            }
            assert forall|j: int| 0 <= j < u + 1 implies has_id(r@, (#[trigger] uall[j]).id) by {
                if j < u {
                    let k0 = choose|k0: int| 0 <= k0 < pre.len() && (pre[k0]).id == uall[j].id;
                    if pre[k0].id != l.id {
                        assert(is_entry_of(pre[k0], r@));
                        let k1 = choose|k1: int| 0 <= k1 < r@.len() && r@[k1] == pre[k0];
                        assert(r@[k1].id == uall[j].id);
                    } else {
                        let k1 = choose|k1: int| 0 <= k1 < r@.len() && r@[k1] == l;
                        assert(r@[k1].id == uall[j].id);
                    }
                } else {
                    let k1 = choose|k1: int| 0 <= k1 < r@.len() && r@[k1] == l;
                    assert(r@[k1].id == uall[j].id);
                }
            }
        }
        u = u + 1;
    }
    proof {
        assert(uall.take(u as int) =~= uall);
    }
    r
}

/// The position of the first lesson with id `id`, if any lesson has it.
pub fn find_lesson_by_id(lessons: &Vec<Lesson>, id: u32) -> (r: Option<usize>)
    ensures
        match r {
            Some(i) => i < lessons@.len() && lessons@[i as int].id == id && (forall|j: int|
                0 <= j < i ==> (#[trigger] lessons@[j]).id != id),
            None => !has_id(lessons@, id),
        },
{
    let n = lessons.len();
    let mut i: usize = 0;
    while i < n
        invariant
            i <= n,
            n == lessons@.len(),
            forall|j: int| 0 <= j < i ==> (#[trigger] lessons@[j]).id != id,
        decreases n - i,
    {
        if lessons[i].id == id {
            return Some(i);
        }
        i = i + 1;
    }
    None
}

/// The positions of the lessons of the given type, ascending.
pub fn filter_indices_by_type(lessons: &Vec<Lesson>, t: LessonType) -> (r: Vec<usize>)
    ensures
        forall|k: int|
            0 <= k < r@.len() ==> #[trigger] r@[k] < lessons@.len() && lessons@[r@[k] as int]
                .lesson_type == t,
        forall|j: int, k: int| 0 <= j < k < r@.len() ==> r@[j] < r@[k],
        forall|j: int|
            0 <= j < lessons@.len() && (#[trigger] lessons@[j]).lesson_type == t ==> (exists|
                k: int,
            |
                0 <= k < r@.len() && #[trigger] r@[k] == j),
{
    let n = lessons.len();
    let mut r: Vec<usize> = Vec::new();
    let mut i: usize = 0;
    while i < n
        invariant
            i <= n,
            n == lessons@.len(),
            forall|k: int|
                0 <= k < r@.len() ==> #[trigger] r@[k] < i && lessons@[r@[k] as int].lesson_type
                    == t,
            forall|j: int, k: int| 0 <= j < k < r@.len() ==> r@[j] < r@[k],
            forall|j: int|
                0 <= j < i && (#[trigger] lessons@[j]).lesson_type == t ==> (exists|k: int|
                    0 <= k < r@.len() && #[trigger] r@[k] == j),
        decreases n - i,
    {
        let ghost old_r = r@;
        let matched = lessons[i].lesson_type == t;
        if matched {
            r.push(i);
            proof {
                assert(r@[r@.len() - 1] == i);
            }
        }
        proof {
            assert forall|j: int|
                0 <= j < i + 1 && (#[trigger] lessons@[j]).lesson_type == t implies (exists|
                k: int,
            |
                0 <= k < r@.len() && #[trigger] r@[k] == j) by {
                if j < i {
                    let k0 = choose|k0: int| 0 <= k0 < old_r.len() && #[trigger] old_r[k0] == j;
                    assert(r@[k0] == j);
                } else {
                    assert(r@[r@.len() - 1] == j);
                }
            }
        }
        i = i + 1;
    }
    r
}

/// The positions of the lessons in the given language, ascending.
pub fn filter_indices_by_language(lessons: &Vec<Lesson>, language: &str) -> (r: Vec<usize>)
    ensures
        forall|k: int|
            0 <= k < r@.len() ==> #[trigger] r@[k] < lessons@.len() && lessons@[r@[k] as int]
                .language@ == language@,
        forall|j: int, k: int| 0 <= j < k < r@.len() ==> r@[j] < r@[k],
        forall|j: int|
            0 <= j < lessons@.len() && (#[trigger] lessons@[j]).language@ == language@ ==> (exists|
                k: int,
            |
                0 <= k < r@.len() && #[trigger] r@[k] == j),
{
    let n = lessons.len();
    let mut r: Vec<usize> = Vec::new();
    let mut i: usize = 0;
    while i < n
        invariant
            i <= n,
            n == lessons@.len(),
            forall|k: int|
                0 <= k < r@.len() ==> #[trigger] r@[k] < i && lessons@[r@[k] as int].language@
                    == language@,
            forall|j: int, k: int| 0 <= j < k < r@.len() ==> r@[j] < r@[k],
            forall|j: int|
                0 <= j < i && (#[trigger] lessons@[j]).language@ == language@ ==> (exists|k: int|
                    0 <= k < r@.len() && #[trigger] r@[k] == j),
        decreases n - i,
    {
        let ghost old_r = r@;
        let matched = str_eq(lessons[i].language.as_str(), language);
        if matched {
            r.push(i);
            proof {
                assert(r@[r@.len() - 1] == i);
            }
        }
        proof {
            assert forall|j: int|
                0 <= j < i + 1 && (#[trigger] lessons@[j]).language@ == language@ implies (exists|
                k: int,
            |
                0 <= k < r@.len() && #[trigger] r@[k] == j) by {
                if j < i {
                    let k0 = choose|k0: int| 0 <= k0 < old_r.len() && #[trigger] old_r[k0] == j;
                    assert(r@[k0] == j);
                } else {
                    assert(r@[r@.len() - 1] == j);
                }
            }
        }
        i = i + 1;
    }
    r
}

} // verus!
