//! Memory-mode obfuscation: produce the display text with characters or
//! words replaced by placeholders, per language family.
//!
//! The partial modes pick their units at random. The random source is
//! injected through the `IndexShuffler` trait, so that a deterministic
//! shuffler can stand in; whatever the shuffler does, the contracts here pin
//! the shape of the result, and for character hiding the exact number of
//! hidden characters.

use crate::session::count_true;
use crate::session::lemma_count_true_all_false;
use crate::session::lemma_count_true_update;
use crate::text::spec_is_ascii_punct;
use crate::text::spec_is_cjk_char;
use crate::text::spec_is_cjk_punct;
use crate::text::spec_is_space;
use rand::seq::SliceRandom;
use vstd::prelude::*;

verus! {

/// A source of permutations: it may reorder the given positions arbitrarily,
/// and must neither add nor drop any.
pub trait IndexShuffler {
    fn shuffle(&mut self, v: &mut Vec<usize>)
        ensures
            final(v)@.to_multiset() == old(v)@.to_multiset(),
    ;
}

/// The usual shuffler, backed by the thread-local random generator.
pub struct ThreadRngShuffler;

/// Relies on `rand::seq::SliceRandom::shuffle` with `rand::rng()`: the
/// slice is permuted in place, so it keeps exactly its elements.
#[verifier::external_body]
fn rand_shuffle(v: &mut Vec<usize>)
    ensures
        final(v)@.to_multiset() == old(v)@.to_multiset(),
{
    v.shuffle(&mut rand::rng());
}

impl IndexShuffler for ThreadRngShuffler {
    fn shuffle(&mut self, v: &mut Vec<usize>) {
        rand_shuffle(v);
    }
}

/// A shuffler that moves nothing, for deterministic runs.
pub struct NoShuffle;

impl IndexShuffler for NoShuffle {
    fn shuffle(&mut self, v: &mut Vec<usize>) {
    }
}

/// How many of the listed positions hold a placeholder in `r`.
pub open spec fn count_hidden_at(list: Seq<int>, r: Seq<char>) -> nat
    decreases list.len(),
{
    if list.len() == 0 {
        0
    } else {
        (if 0 <= list[0] < r.len() && r[list[0]] == '_' {
            1nat
        } else {
            0nat
        }) + count_hidden_at(list.drop_first(), r)
    }
}

/// How many of the listed positions are marked.
pub open spec fn count_marked_at(list: Seq<int>, marked: Seq<bool>) -> nat
    decreases list.len(),
{
    if list.len() == 0 {
        0
    } else {
        (if 0 <= list[0] < marked.len() && marked[list[0]] {
            1nat
        } else {
            0nat
        }) + count_marked_at(list.drop_first(), marked)
    }
}

/// At the listed positions, placeholders stand exactly where marks stand.
proof fn lemma_hidden_matches_marked(list: Seq<int>, r: Seq<char>, marked: Seq<bool>)
    requires
        r.len() == marked.len(),
        forall|q: int|
            0 <= q < list.len() ==> 0 <= #[trigger] list[q] < r.len() && ((r[list[q]] == '_')
                == marked[list[q]]),
    ensures
        count_hidden_at(list, r) == count_marked_at(list, marked),
    decreases list.len(),
{
    if list.len() > 0 {
        assert forall|q: int|
            0 <= q < list.drop_first().len() implies 0 <= #[trigger] list.drop_first()[q]
            < r.len() && ((r[list.drop_first()[q]] == '_') == marked[list.drop_first()[q]]) by {
            assert(list.drop_first()[q] == list[q + 1]);
        }
        lemma_hidden_matches_marked(list.drop_first(), r, marked);
    }
}

/// Marks agreeing at the listed positions count the same.
proof fn lemma_count_marked_congruent(list: Seq<int>, a: Seq<bool>, b: Seq<bool>)
    requires
        a.len() == b.len(),
        forall|q: int|
            0 <= q < list.len() ==> 0 <= #[trigger] list[q] < a.len() && a[list[q]]
                == b[list[q]],
    ensures
        count_marked_at(list, a) == count_marked_at(list, b),
    decreases list.len(),
{
    if list.len() > 0 {
        assert forall|q: int|
            0 <= q < list.drop_first().len() implies 0 <= #[trigger] list.drop_first()[q]
            < a.len() && a[list.drop_first()[q]] == b[list.drop_first()[q]] by {
            assert(list.drop_first()[q] == list[q + 1]);
        }
        lemma_count_marked_congruent(list.drop_first(), a, b);
    }
}

/// When every mark lies on a listed position and no position is listed
/// twice, counting the marks along the list counts all of them.
proof fn lemma_count_true_eq_marked_at(list: Seq<int>, marked: Seq<bool>)
    requires
        list.no_duplicates(),
        forall|q: int| 0 <= q < list.len() ==> 0 <= #[trigger] list[q] < marked.len(),
        forall|i: int| 0 <= i < marked.len() && marked[i] ==> list.contains(i),
    ensures
        crate::session::count_true(marked) == count_marked_at(list, marked),
    decreases list.len(),
{
    if list.len() == 0 {
        assert forall|i: int| 0 <= i < marked.len() implies !marked[i] by {
            if marked[i] {
                assert(list.contains(i));
                assert(false);
            }
        }
        lemma_count_true_all_false(marked);
    } else {
        let x = list[0];
        let rest = list.drop_first();
        let m2 = marked.update(x, false);
        assert(rest.no_duplicates()) by {
            assert forall|j: int, k: int|
                0 <= j < rest.len() && 0 <= k < rest.len() && j != k implies rest[j]
                != rest[k] by {
                assert(rest[j] == list[j + 1]);
                assert(rest[k] == list[k + 1]);
            }
        }
        assert forall|q: int| 0 <= q < rest.len() implies 0 <= #[trigger] rest[q]
            < m2.len() by {
            assert(rest[q] == list[q + 1]);
        }
        assert forall|i: int| 0 <= i < m2.len() && m2[i] implies rest.contains(i) by {
            assert(marked[i]);
            assert(i != x);
            let q = choose|q: int| 0 <= q < list.len() && list[q] == i;
            assert(q != 0);
            assert(rest[q - 1] == i);
        }
        lemma_count_true_eq_marked_at(rest, m2);
        lemma_count_true_update(marked, x, false);
        assert forall|q: int|
            0 <= q < rest.len() implies 0 <= #[trigger] rest[q] < marked.len()
            && marked[rest[q]] == m2[rest[q]] by {
            assert(rest[q] == list[q + 1]);
            assert(list[q + 1] != x);
        }
        lemma_count_marked_congruent(rest, marked, m2);
    }
}

/// The characters that full hiding leaves visible: whitespace, ASCII
/// punctuation, and the common CJK punctuation marks.
pub open spec fn spec_keep_visible(c: char) -> bool {
    spec_is_space(c) || spec_is_ascii_punct(c) || spec_is_cjk_punct(c)
}

/// Full hiding: every character becomes `_` except the visible ones.
pub open spec fn spec_hide_complete(s: Seq<char>) -> Seq<char> {
    Seq::new(
        s.len(),
        |i: int|
            if spec_keep_visible(s[i]) {
                s[i]
            } else {
                '_'
            },
    )
}

/// Hide all but the visible characters.
pub fn hide_complete(chars: &Vec<char>) -> (r: Vec<char>)
    ensures
        r@ == spec_hide_complete(chars@),
{
    let n = chars.len();
    let mut r: Vec<char> = Vec::new();
    let mut i: usize = 0;
    while i < n
        invariant
            i <= n,
            n == chars@.len(),
            r@.len() == i,
            forall|j: int| 0 <= j < i ==> r@[j] == spec_hide_complete(chars@)[j],
        decreases n - i,
    {
        let c = chars[i];
        if crate::text::is_space(c) || crate::text::is_ascii_punct(c) || crate::text::is_cjk_punct(
            c,
        ) {
            r.push(c);
        } else {
            r.push('_');
        }
        i = i + 1;
    }
    proof {
        assert(r@ =~= spec_hide_complete(chars@));
    }
    r
}

/// First-letter hiding for alphabetic text, from position `i` on: within
/// each whitespace-delimited word only the first alphanumeric character
/// stays, every later alphanumeric character becomes `_`, and whitespace
/// and punctuation pass through. `seen` tells whether the current word has
/// already shown its first character.
pub open spec fn spec_first_letter_latin(s: Seq<char>, i: int, seen: bool) -> Seq<char>
    decreases s.len() - i,
{
    if i < 0 || i >= s.len() {
        Seq::empty()
    } else if crate::text::spec_is_space(s[i]) {
        seq![s[i]] + spec_first_letter_latin(s, i + 1, false)
    } else if crate::text::alnum(s[i]) {
        (if seen {
            seq!['_']
        } else {
            seq![s[i]]
        }) + spec_first_letter_latin(s, i + 1, true)
    } else {
        seq![s[i]] + spec_first_letter_latin(s, i + 1, seen)
    }
}

/// First-letter hiding for alphabetic text.
pub fn hide_english_first_letter(chars: &Vec<char>) -> (r: Vec<char>)
    ensures
        r@ == spec_first_letter_latin(chars@, 0, false),
{
    let n = chars.len();
    let ghost s = chars@;
    let mut r: Vec<char> = Vec::new();
    let mut seen: bool = false;
    let mut i: usize = 0;
    proof {
        assert(spec_first_letter_latin(s, 0, false) =~= r@ + spec_first_letter_latin(
            s,
            0,
            false,
        ));
    }
    while i < n
        invariant
            i <= n,
            n == chars@.len(),
            s == chars@,
            spec_first_letter_latin(s, 0, false) == r@ + spec_first_letter_latin(
                s,
                i as int,
                seen,
            ),
        decreases n - i,
    {
        let ghost old_r = r@;
        let ghost old_seen = seen;
        let c = chars[i];
        if crate::text::is_space(c) {
            r.push(c);
            seen = false;
        } else if crate::text::is_alnum(c) {
            if seen {
                r.push('_');
            } else {
                r.push(c);
            }
            seen = true;
        } else {
            r.push(c);
        }
        proof {
            assert(r@ == old_r.push(r@.last()));
            assert(spec_first_letter_latin(s, i as int, old_seen) == seq![r@.last()]
                + spec_first_letter_latin(s, i + 1, seen));
            assert(old_r + spec_first_letter_latin(s, i as int, old_seen) =~= r@
                + spec_first_letter_latin(s, i + 1, seen));
        }
        i = i + 1;
    }
    proof {
        assert(spec_first_letter_latin(s, n as int, seen) =~= Seq::<char>::empty());
        assert(r@ + Seq::<char>::empty() =~= r@);
    }
    r
}

/// First-ideograph hiding for CJK text, from position `i` on: the first
/// ideograph of each run stays, later ideographs of the run become `_`, and
/// a non-alphanumeric separator starts a new run.
pub open spec fn spec_first_char_cjk(s: Seq<char>, i: int, show_next: bool) -> Seq<char>
    decreases s.len() - i,
{
    if i < 0 || i >= s.len() {
        Seq::empty()
    } else if spec_is_cjk_char(s[i]) {
        (if show_next {
            seq![s[i]]
        } else {
            seq!['_']
        }) + spec_first_char_cjk(s, i + 1, false)
    } else {
        seq![s[i]] + spec_first_char_cjk(s, i + 1, !crate::text::alnum(s[i]))
    }
}

/// First-ideograph hiding for CJK text.
pub fn hide_chinese_first_char(chars: &Vec<char>) -> (r: Vec<char>)
    ensures
        r@ == spec_first_char_cjk(chars@, 0, true),
{
    let n = chars.len();
    let ghost s = chars@;
    let mut r: Vec<char> = Vec::new();
    let mut show_next: bool = true;
    let mut i: usize = 0;
    proof {
        assert(spec_first_char_cjk(s, 0, true) =~= r@ + spec_first_char_cjk(s, 0, true));
    }
    while i < n
        invariant
            i <= n,
            n == chars@.len(),
            s == chars@,
            spec_first_char_cjk(s, 0, true) == r@ + spec_first_char_cjk(
                s,
                i as int,
                show_next,
            ),
        decreases n - i,
    {
        let ghost old_r = r@;
        let ghost old_show = show_next;
        let c = chars[i];
        if crate::text::is_cjk_char(c) {
            if show_next {
                r.push(c);
            } else {
                r.push('_');
            }
            show_next = false;
        } else {
            r.push(c);
            show_next = !crate::text::is_alnum(c);
        }
        proof {
            assert(r@ == old_r.push(r@.last()));
            assert(spec_first_char_cjk(s, i as int, old_show) == seq![r@.last()]
                + spec_first_char_cjk(s, i + 1, show_next));
            assert(old_r + spec_first_char_cjk(s, i as int, old_show) =~= r@
                + spec_first_char_cjk(s, i + 1, show_next));
        }
        i = i + 1;
    }
    proof {
        assert(spec_first_char_cjk(s, n as int, show_next) =~= Seq::<char>::empty());
        assert(r@ + Seq::<char>::empty() =~= r@);
    }
    r
}


/// The positions from `i` on holding a CJK ideograph, ascending.
pub open spec fn cjk_positions_from(s: Seq<char>, i: int) -> Seq<int>
    decreases s.len() - i,
{
    if i >= s.len() {
        Seq::empty()
    } else {
        (if 0 <= i && spec_is_cjk_char(s[i]) {
            seq![i]
        } else {
            Seq::<int>::empty()
        }) + cjk_positions_from(s, i + 1)
    }
}

/// Whether an alphanumeric-run word begins at `i`.
pub open spec fn alnum_word_start_at(s: Seq<char>, i: int) -> bool {
    &&& 0 <= i < s.len()
    &&& crate::text::alnum(s[i])
    &&& (i == 0 || !crate::text::alnum(s[i - 1]))
}

/// The positions from `i` on where an alphanumeric-run word begins.
pub open spec fn alnum_word_starts_from(s: Seq<char>, i: int) -> Seq<int>
    decreases s.len() - i,
{
    if i >= s.len() {
        Seq::empty()
    } else {
        (if alnum_word_start_at(s, i) {
            seq![i]
        } else {
            Seq::<int>::empty()
        }) + alnum_word_starts_from(s, i + 1)
    }
}

/// How many units hiding selects: the share `permille` of `count`, rounded
/// to the nearest, and never more than `count`.
pub open spec fn spec_hide_count(count: nat, permille: u32) -> nat {
    let rounded = (count * permille + 500) / 1000;
    if rounded > count {
        count
    } else {
        rounded as nat
    }
}

/// In how many positions two texts differ.
pub open spec fn count_diff(a: Seq<char>, b: Seq<char>) -> nat
    decreases a.len(),
{
    if a.len() == 0 || b.len() == 0 {
        0
    } else {
        (if a[0] != b[0] {
            1nat
        } else {
            0nat
        }) + count_diff(a.drop_first(), b.drop_first())
    }
}

/// The positions of the CJK ideographs of `chars`, ascending.
fn cjk_indices(chars: &Vec<char>) -> (r: Vec<usize>)
    ensures
        forall|k: int|
            0 <= k < r@.len() ==> #[trigger] r@[k] < chars@.len() && spec_is_cjk_char(
                chars@[r@[k] as int],
            ),
        forall|j: int, k: int| 0 <= j < k < r@.len() ==> r@[j] < r@[k],
        r@.len() == cjk_positions_from(chars@, 0).len(),
{
    let n = chars.len();
    let ghost s = chars@;
    let mut r: Vec<usize> = Vec::new();
    let ghost mut done: Seq<int> = Seq::empty();
    let mut i: usize = 0;
    proof {
        assert(cjk_positions_from(s, 0) =~= done + cjk_positions_from(s, 0));
    }
    while i < n
        invariant
            i <= n,
            n == chars@.len(),
            s == chars@,
            cjk_positions_from(s, 0) == done + cjk_positions_from(s, i as int),
            r@.len() == done.len(),
            forall|k: int|
                0 <= k < r@.len() ==> #[trigger] r@[k] < i && spec_is_cjk_char(
                    chars@[r@[k] as int],
                ),
            forall|j: int, k: int| 0 <= j < k < r@.len() ==> r@[j] < r@[k],
        decreases n - i,
    {
        let ghost prev = done;
        let keep = crate::text::is_cjk_char(chars[i]);
        if keep {
            r.push(i);
            proof {
                done = done.push(i as int);
            }
        }
        proof {
            let pos_i = cjk_positions_from(s, i as int);
            assert(pos_i == (if spec_is_cjk_char(s[i as int]) {
                seq![i as int]
            } else {
                Seq::<int>::empty()
            }) + cjk_positions_from(s, i + 1));
            if keep {
                assert(prev + pos_i =~= done + cjk_positions_from(s, i + 1));
                assert(cjk_positions_from(s, 0) == done + cjk_positions_from(s, i + 1));
            } else {
                assert(pos_i =~= cjk_positions_from(s, i + 1));
            }
        }
        i = i + 1;
    }
    proof {
        assert(cjk_positions_from(s, i as int) =~= Seq::<int>::empty());
        assert(done =~= cjk_positions_from(s, 0));
    }
    r
}

/// Flags with exactly the first `k` of the given positions set.
fn mark_first(indices: &Vec<usize>, k: usize, len: usize) -> (r: Vec<bool>)
    requires
        k <= indices@.len(),
        forall|j: int| 0 <= j < indices@.len() ==> #[trigger] indices@[j] < len,
        indices@.no_duplicates(),
    ensures
        r@.len() == len,
        forall|i: int|
            0 <= i < len ==> (#[trigger] r@[i] <==> (exists|j: int|
                0 <= j < k && indices@[j] == i)),
        count_true(r@) == k,
{
    let mut r: Vec<bool> = Vec::new();
    let mut i: usize = 0;
    while i < len
        invariant
            i <= len,
            r@.len() == i,
            forall|j: int| 0 <= j < i ==> !r@[j],
        decreases len - i,
    {
        r.push(false);
        i = i + 1;
    }
    proof {
        lemma_count_true_all_false(r@);
    }
    let mut j: usize = 0;
    while j < k
        invariant
            j <= k,
            k <= indices@.len(),
            r@.len() == len,
            forall|q: int| 0 <= q < indices@.len() ==> #[trigger] indices@[q] < len,
            indices@.no_duplicates(),
            forall|i2: int|
                0 <= i2 < len ==> (#[trigger] r@[i2] <==> (exists|j2: int|
                    0 <= j2 < j && indices@[j2] == i2)),
            count_true(r@) == j,
        decreases k - j,
    {
        let idx = indices[j];
        proof {
            if r@[idx as int] {
                let j2 = choose|j2: int| 0 <= j2 < j && indices@[j2] == idx as int;
                assert(indices@[j2] == indices@[j as int]);
                assert(false);
            }
            lemma_count_true_update(r@, idx as int, true);
        }
        let ghost old_r = r@;
        r.set(idx, true);
        proof {
            assert forall|i2: int|
                0 <= i2 < len implies (#[trigger] r@[i2] <==> (exists|j2: int|
                0 <= j2 < j + 1 && indices@[j2] == i2)) by {
                if i2 == idx as int {
                    assert(indices@[j as int] == i2);
                } else {
                    assert(r@[i2] == old_r[i2]);
                }
            }
        }
        j = j + 1;
    }
    r
}

/// Replace the marked positions by `_`; the number of changed positions is
/// the number of marks, as long as no marked position already holds `_`.
fn apply_marks(chars: &Vec<char>, marked: &Vec<bool>) -> (r: Vec<char>)
    requires
        marked@.len() == chars@.len(),
        forall|i: int| 0 <= i < chars@.len() && marked@[i] ==> chars@[i] != '_',
    ensures
        r@.len() == chars@.len(),
        forall|i: int|
            0 <= i < chars@.len() ==> #[trigger] r@[i] == (if marked@[i] {
                '_'
            } else {
                chars@[i]
            }),
        count_diff(chars@, r@) == count_true(marked@),
{
    let n = chars.len();
    let mut r: Vec<char> = Vec::new();
    let mut i: usize = 0;
    while i < n
        invariant
            i <= n,
            n == chars@.len(),
            n == marked@.len(),
            r@.len() == i,
            forall|j: int|
                0 <= j < i ==> #[trigger] r@[j] == (if marked@[j] {
                    '_'
                } else {
                    chars@[j]
                }),
        decreases n - i,
    {
        if marked[i] {
            r.push('_');
        } else {
            r.push(chars[i]);
        }
        i = i + 1;
    }
    proof {
        lemma_count_diff_marks(chars@, r@, marked@);
    }
    r
}

proof fn lemma_count_diff_marks(a: Seq<char>, b: Seq<char>, marked: Seq<bool>)
    requires
        a.len() == b.len(),
        a.len() == marked.len(),
        forall|i: int|
            0 <= i < a.len() ==> #[trigger] b[i] == (if marked[i] {
                '_'
            } else {
                a[i]
            }),
        forall|i: int| 0 <= i < a.len() && marked[i] ==> a[i] != '_',
    ensures
        count_diff(a, b) == count_true(marked),
    decreases a.len(),
{
    if a.len() > 0 {
        assert forall|i: int|
            0 <= i < a.drop_first().len() implies #[trigger] b.drop_first()[i] == (
        if marked.drop_first()[i] {
            '_'
        } else {
            a.drop_first()[i]
        }) by {
            assert(b.drop_first()[i] == b[i + 1]);
        }
        assert forall|i: int|
            0 <= i < a.drop_first().len() && marked.drop_first()[i] implies a.drop_first()[i]
            != '_' by {
            assert(a.drop_first()[i] == a[i + 1]);
        }
        lemma_count_diff_marks(a.drop_first(), b.drop_first(), marked.drop_first());
    }
}

/// What partial character hiding guarantees: the length is kept, nothing
/// but an ideograph is ever hidden, and exactly the selected share of the
/// ideographs is hidden.
pub open spec fn spec_partial_cjk_ok(t: Seq<char>, r: Seq<char>, permille: u32) -> bool {
    &&& r.len() == t.len()
    &&& (forall|i: int|
        0 <= i < t.len() && !spec_is_cjk_char(t[i]) ==> #[trigger] r[i] == t[i])
    &&& (forall|i: int|
        0 <= i < t.len() ==> #[trigger] r[i] == t[i] || (r[i] == '_' && spec_is_cjk_char(
            t[i],
        )))
    &&& count_diff(t, r) == spec_hide_count(cjk_positions_from(t, 0).len(), permille)
}

/// What partial word hiding guarantees: the length is kept, only
/// alphanumeric characters are ever hidden, and a word is hidden or shown
/// whole: adjacent characters of one word agree.
pub open spec fn spec_partial_words_ok(t: Seq<char>, r: Seq<char>, permille: u32) -> bool {
    &&& r.len() == t.len()
    &&& (forall|i: int| 0 <= i < t.len() && !crate::text::alnum(t[i]) ==> #[trigger] r[i] == t[i])
    &&& (forall|i: int|
        0 <= i < t.len() ==> #[trigger] r[i] == t[i] || (r[i] == '_' && crate::text::alnum(
            t[i],
        )))
    &&& (forall|i: int|
        1 <= i < t.len() && crate::text::alnum(t[i]) && crate::text::alnum(t[i - 1]) ==> ((
        #[trigger] r[i]) == '_') == (r[i - 1] == '_'))
    &&& count_hidden_at(alnum_word_starts_from(t, 0), r) == spec_hide_count(
        alnum_word_starts_from(t, 0).len(),
        permille,
    )
}

/// The selected number of units to hide.
fn hide_count_of(count: usize, permille: u32) -> (r: usize)
    ensures
        r == spec_hide_count(count as nat, permille),
{
    let cw: u128 = count as u128;
    let pw: u128 = permille as u128;
    proof {
        let cap64: int = 0xFFFF_FFFF_FFFF_FFFF;
        let cap32: int = 0xFFFF_FFFF;
        assert(cw * pw <= cap64 * cap32) by (nonlinear_arith)
            requires
                0 <= cw <= cap64,
                0 <= pw <= cap32,
        ;
    }
    let rounded_wide: u128 = (cw * pw + 500) / 1000;
    if rounded_wide > count as u128 {
        count
    } else {
        rounded_wide as usize
    }
}

/// Hide a randomly chosen share of the ideographs, one character at a time.
pub fn hide_chinese_chars<S: IndexShuffler>(
    chars: &Vec<char>,
    permille: u32,
    sh: &mut S,
) -> (r: Vec<char>)
    ensures
        spec_partial_cjk_ok(chars@, r@, permille),
{
    broadcast use vstd::seq_lib::group_to_multiset_ensures;

    let mut idx = cjk_indices(chars);
    let ghost orig = idx@;
    proof {
        assert(orig.no_duplicates()) by {
            assert forall|j: int, k: int|
                0 <= j < orig.len() && 0 <= k < orig.len() && j != k implies orig[j]
                != orig[k] by {
                if j < k {
                } else {
                }
            }
        }
    }
    sh.shuffle(&mut idx);
    proof {
        orig.lemma_multiset_has_no_duplicates();
        assert forall|x: usize| idx@.to_multiset().contains(x) implies idx@.to_multiset().count(
            x,
        ) == 1 by {
            assert(orig.to_multiset().count(x) == idx@.to_multiset().count(x));
        }
        idx@.lemma_multiset_has_no_duplicates_conv();
        assert(idx@.len() == idx@.to_multiset().len());
        assert(orig.len() == orig.to_multiset().len());
        assert forall|j: int|
            0 <= j < idx@.len() implies #[trigger] idx@[j] < chars@.len() && spec_is_cjk_char(
            chars@[idx@[j] as int],
        ) by {
            assert(idx@.contains(idx@[j]));
            assert(idx@.to_multiset().count(idx@[j]) > 0);
            assert(orig.to_multiset().count(idx@[j]) > 0);
            assert(orig.contains(idx@[j]));
            let j0 = choose|j0: int| 0 <= j0 < orig.len() && orig[j0] == idx@[j];
            assert(orig[j0] < chars@.len());
        }
    }
    let count = idx.len();
    let k = hide_count_of(count, permille);
    let marked = mark_first(&idx, k, chars.len());
    proof {
        assert forall|i: int| 0 <= i < chars@.len() && marked@[i] implies chars@[i] != '_' by {
            let j = choose|j: int| 0 <= j < k && idx@[j] == i;
            assert(spec_is_cjk_char(chars@[i]));
        }
    }
    let r = apply_marks(chars, &marked);
    proof {
        assert forall|i: int|
            0 <= i < chars@.len() && !spec_is_cjk_char(chars@[i]) implies #[trigger] r@[i]
            == chars@[i] by {
            if marked@[i] {
                let j = choose|j: int| 0 <= j < k && idx@[j] == i;
            }
        }
    }
    r
}

/// Hide a randomly chosen share of the words, whole words at a time.
pub fn hide_english_words<S: IndexShuffler>(
    chars: &Vec<char>,
    permille: u32,
    sh: &mut S,
) -> (r: Vec<char>)
    ensures
        spec_partial_words_ok(chars@, r@, permille),
{
    broadcast use vstd::seq_lib::group_to_multiset_ensures;

    let mut starts = alnum_word_starts(chars);
    let ghost orig = starts@;
    proof {
        assert(orig.no_duplicates()) by {
            assert forall|j: int, k: int|
                0 <= j < orig.len() && 0 <= k < orig.len() && j != k implies orig[j]
                != orig[k] by {
                if j < k {
                } else {
                }
            }
        }
    }
    sh.shuffle(&mut starts);
    proof {
        orig.lemma_multiset_has_no_duplicates();
        assert forall|x: usize| starts@.to_multiset().contains(x) implies starts@.to_multiset()
            .count(x) == 1 by {
            assert(orig.to_multiset().count(x) == starts@.to_multiset().count(x));
        }
        starts@.lemma_multiset_has_no_duplicates_conv();
        assert(starts@.len() == starts@.to_multiset().len());
        assert(orig.len() == orig.to_multiset().len());
        assert forall|j: int| 0 <= j < starts@.len() implies #[trigger] starts@[j]
            < chars@.len() by {
            assert(starts@.contains(starts@[j]));
            assert(starts@.to_multiset().count(starts@[j]) > 0);
            assert(orig.to_multiset().count(starts@[j]) > 0);
            assert(orig.contains(starts@[j]));
            let j0 = choose|j0: int| 0 <= j0 < orig.len() && orig[j0] == starts@[j];
            assert(orig[j0] < chars@.len());
        }
    }
    let count = starts.len();
    let k = hide_count_of(count, permille);
    let marked = mark_first(&starts, k, chars.len());
    let n = chars.len();
    let mut r: Vec<char> = Vec::new();
    let mut hidden_run: bool = false;
    let mut i: usize = 0;
    while i < n
        invariant
            i <= n,
            n == chars@.len(),
            n == marked@.len(),
            r@.len() == i,
            forall|j: int|
                0 <= j < i && !crate::text::alnum(chars@[j]) ==> #[trigger] r@[j] == chars@[j],
            forall|j: int|
                0 <= j < i ==> #[trigger] r@[j] == chars@[j] || (r@[j] == '_'
                    && crate::text::alnum(chars@[j])),
            forall|j: int|
                1 <= j < i && crate::text::alnum(chars@[j]) && crate::text::alnum(
                    chars@[j - 1],
                ) ==> ((#[trigger] r@[j]) == '_') == (r@[j - 1] == '_'),
            forall|j: int|
                0 <= j < i && alnum_word_start_at(chars@, j) ==> ((#[trigger] r@[j]) == '_')
                    == marked@[j],
            i > 0 && crate::text::alnum(chars@[i - 1]) ==> (hidden_run == (r@[i - 1] == '_')),
        decreases n - i,
    {
        let c = chars[i];
        if crate::text::is_alnum(c) {
            proof {
                assert(chars@[i as int] != '_');
            }
            let at_start = i == 0 || !crate::text::is_alnum(chars[i - 1]);
            proof {
                assert(at_start == alnum_word_start_at(chars@, i as int));
            }
            if at_start {
                hidden_run = marked[i];
            }
            if hidden_run {
                proof {
                    assert(crate::text::alnum(chars@[i as int]));
                }
                r.push('_');
            } else {
                r.push(c);
            }
        } else {
            r.push(c);
        }
        i = i + 1;
    }
    proof {
        let list = alnum_word_starts_from(chars@, 0);
        assert forall|q: int|
            0 <= q < list.len() implies 0 <= #[trigger] list[q] < r@.len() && ((r@[list[q]]
            == '_') == marked@[list[q]]) by {
            assert(orig[q] as int == list[q]);
            assert(alnum_word_start_at(chars@, list[q]));
        }
        lemma_hidden_matches_marked(list, r@, marked@);
        assert(list.no_duplicates()) by {
            assert forall|j: int, q: int|
                0 <= j < list.len() && 0 <= q < list.len() && j != q implies list[j]
                != list[q] by {
                assert(orig[j] as int == list[j]);
                assert(orig[q] as int == list[q]);
                if j < q {
                } else {
                }
            }
        }
        assert forall|q: int| 0 <= q < list.len() implies 0 <= #[trigger] list[q]
            < marked@.len() by {
            assert(orig[q] as int == list[q]);
        }
        assert forall|i2: int| 0 <= i2 < marked@.len() && marked@[i2] implies list.contains(
            i2,
        ) by {
            let j = choose|j: int| 0 <= j < k && starts@[j] == i2;
            assert(starts@.contains(starts@[j]));
            assert(starts@.to_multiset().count(starts@[j]) > 0);
            assert(orig.to_multiset().count(starts@[j]) > 0);
            assert(orig.contains(starts@[j]));
            let q = choose|q: int| 0 <= q < orig.len() && orig[q] == starts@[j];
            assert(list[q] == i2);
        }
        lemma_count_true_eq_marked_at(list, marked@);
        assert(count_hidden_at(list, r@) == k);
    }
    r
}

/// The positions where an alphanumeric-run word begins, ascending.
fn alnum_word_starts(chars: &Vec<char>) -> (r: Vec<usize>)
    ensures
        forall|k: int| 0 <= k < r@.len() ==> #[trigger] r@[k] < chars@.len(),
        forall|j: int, k: int| 0 <= j < k < r@.len() ==> r@[j] < r@[k],
        r@.len() == alnum_word_starts_from(chars@, 0).len(),
        forall|k: int|
            0 <= k < r@.len() ==> (#[trigger] r@[k]) as int == alnum_word_starts_from(
                chars@,
                0,
            )[k] && alnum_word_start_at(chars@, r@[k] as int),
{
    let n = chars.len();
    let ghost s = chars@;
    let mut r: Vec<usize> = Vec::new();
    let ghost mut done: Seq<int> = Seq::empty();
    let mut i: usize = 0;
    proof {
        assert(alnum_word_starts_from(s, 0) =~= done + alnum_word_starts_from(s, 0));
    }
    while i < n
        invariant
            i <= n,
            n == chars@.len(),
            s == chars@,
            alnum_word_starts_from(s, 0) == done + alnum_word_starts_from(s, i as int),
            r@.len() == done.len(),
            forall|k: int| 0 <= k < r@.len() ==> #[trigger] r@[k] < i,
            forall|j: int, k: int| 0 <= j < k < r@.len() ==> r@[j] < r@[k],
            forall|k: int|
                0 <= k < r@.len() ==> (#[trigger] r@[k]) as int == done[k]
                    && alnum_word_start_at(s, done[k]),
        decreases n - i,
    {
        let ghost prev = done;
        let keep = crate::text::is_alnum(chars[i]) && (i == 0 || !crate::text::is_alnum(
            chars[i - 1],
        ));
        proof {
            assert(keep == alnum_word_start_at(s, i as int));
        }
        if keep {
            r.push(i);
            proof {
                done = done.push(i as int);
            }
        }
        proof {
            let pos_i = alnum_word_starts_from(s, i as int);
            assert(pos_i == (if alnum_word_start_at(s, i as int) {
                seq![i as int]
            } else {
                Seq::<int>::empty()
            }) + alnum_word_starts_from(s, i + 1));
            if keep {
                assert(prev + pos_i =~= done + alnum_word_starts_from(s, i + 1));
                assert(alnum_word_starts_from(s, 0) == done + alnum_word_starts_from(s, i + 1));
            } else {
                assert(pos_i =~= alnum_word_starts_from(s, i + 1));
            }
        }
        i = i + 1;
    }
    proof {
        assert(alnum_word_starts_from(s, i as int) =~= Seq::<int>::empty());
        assert(done =~= alnum_word_starts_from(s, 0));
    }
    r
}


/// What the display text for a memory mode holds, given the target `t` and
/// whether the lesson's language is of the CJK family.
pub open spec fn spec_display_ok(
    t: Seq<char>,
    cjk_lang: bool,
    mode: crate::types::MemoryMode,
    r: Seq<char>,
) -> bool {
    match mode {
        crate::types::MemoryMode::Off => r == t,
        crate::types::MemoryMode::Complete => r == spec_hide_complete(t),
        crate::types::MemoryMode::FirstLetter => if cjk_lang {
            r == spec_first_char_cjk(t, 0, true)
        } else {
            r == spec_first_letter_latin(t, 0, false)
        },
        crate::types::MemoryMode::Partial(level) => if cjk_lang {
            spec_partial_cjk_ok(t, r, crate::types::MemoryMode::Partial(level).spec_hide_permille())
        } else {
            spec_partial_words_ok(
                t,
                r,
                crate::types::MemoryMode::Partial(level).spec_hide_permille(),
            )
        },
    }
}

impl crate::session::TypingSession {
    /// The display text of the current exercise under `mode`, with the
    /// partial modes drawing their selection from `sh`.
    pub fn generate_display_text_with<S: IndexShuffler>(
        &self,
        mode: crate::types::MemoryMode,
        sh: &mut S,
    ) -> (r: String)
        requires
            self.wf(),
        ensures
            spec_display_ok(self.target_chars@, self.spec_cjk(), mode, r@),
    {
        let cjk = self.is_cjk();
        let out: Vec<char> = match mode {
            crate::types::MemoryMode::Off => crate::weak::copy_chars(&self.target_chars),
            crate::types::MemoryMode::Complete => hide_complete(&self.target_chars),
            crate::types::MemoryMode::FirstLetter => if cjk {
                hide_chinese_first_char(&self.target_chars)
            } else {
                hide_english_first_letter(&self.target_chars)
            },
            crate::types::MemoryMode::Partial(level) => {
                let permille = mode.hide_permille();
                if cjk {
                    hide_chinese_chars(&self.target_chars, permille, sh)
                } else {
                    hide_english_words(&self.target_chars, permille, sh)
                }
            },
        };
        crate::text::string_from_chars(&out)
    }

    /// The display text of the current exercise under `mode`, with the
    /// partial modes drawing from the thread-local random generator.
    pub fn generate_display_text(&self, mode: crate::types::MemoryMode) -> (r: String)
        requires
            self.wf(),
        ensures
            spec_display_ok(self.target_chars@, self.spec_cjk(), mode, r@),
    {
        let mut sh = ThreadRngShuffler {  };
        self.generate_display_text_with(mode, &mut sh)
    }
}

} // verus!
