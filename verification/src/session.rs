//! The typing session: a state machine that consumes one character at a time,
//! tracks the cursor, the typed characters and the marked mistakes, moves
//! through the exercises of a lesson, and queues notifications for the
//! surrounding user interface.

use crate::stats::age_ms;
use crate::stats::current_wpm_milli;
use crate::stats::drop_old;
use crate::stats::evict_old;
use crate::stats::spec_current_wpm_milli;
use crate::stats::Keystroke;
use crate::text::chars_of;
use crate::text::is_cjk_language;
use crate::text::spec_is_cjk_language;
use crate::types::Exercise;
use crate::types::ExerciseStats;
use crate::types::InputMode;
use crate::types::Lesson;
use crate::types::PracticeMode;
use crate::types::SessionStats;
use crate::types::TypingEvent;
use crate::types::WeakUnit;
use crate::weak::bigram_contents;
use crate::weak::bigram_errs;
use crate::weak::bigram_types;
use crate::weak::char_contents;
use crate::weak::char_types;
use crate::weak::character_weak_units;
use crate::weak::chinese_weak_units;
use crate::weak::english_weak_units;
use crate::weak::punct_contents;
use crate::weak::punct_errs;
use crate::weak::punct_types;
use crate::weak::spec_weak_units_ok;
use crate::weak::word_contents;
use crate::weak::word_errs;
use crate::weak::word_types;
use crate::text::spec_has_prefix;
use crate::text::has_lang_prefix;
use vstd::prelude::*;

verus! {

/// The character that stands for the backspace key.
pub open spec fn spec_backspace() -> char {
    '\u{0008}'
}

/// How many of the flags are set.
pub open spec fn count_true(s: Seq<bool>) -> nat
    decreases s.len(),
{
    if s.len() == 0 {
        0
    } else {
        (if s[0] {
            1nat
        } else {
            0nat
        }) + count_true(s.drop_first())
    }
}

/// The per-keystroke core of a session: what the transition rules read and
/// write, with the bookkeeping (history, events, timing) left aside.
#[verifier::ext_equal]
pub ghost struct TypeState {
    pub target: Seq<char>,
    pub cursor: int,
    pub input: Seq<char>,
    pub flags: Seq<bool>,
    pub total: int,
    pub correct: int,
}

impl TypeState {
    /// One keystroke. Backspace steps the cursor back and clears the mark
    /// there; a matching character advances; a mismatch is marked, advanced
    /// over, or silently counted, according to the input mode. Every
    /// keystroke counts toward the total, and no index ever leaves its range.
    pub open spec fn step(self, ch: char, mode: InputMode) -> TypeState {
        let counted = TypeState { total: self.total + 1, ..self };
        if ch == spec_backspace() {
            if self.cursor > 0 {
                TypeState {
                    cursor: self.cursor - 1,
                    input: self.input.drop_last(),
                    flags: self.flags.update(self.cursor - 1, false),
                    ..counted
                }
            } else {
                counted
            }
        } else if self.cursor < self.target.len() && self.target[self.cursor] == ch {
            TypeState {
                correct: self.correct + 1,
                input: self.input.push(ch),
                flags: self.flags.update(self.cursor, false),
                cursor: self.cursor + 1,
                ..counted
            }
        } else if self.cursor >= self.target.len() {
            // Typing past the end of the exercise moves nothing.
            counted
        } else {
            match mode {
                InputMode::Strict => TypeState {
                    flags: self.flags.update(self.cursor, true),
                    ..counted
                },
                InputMode::Forgiving => TypeState {
                    flags: self.flags.update(self.cursor, true),
                    input: self.input.push(ch),
                    cursor: self.cursor + 1,
                    ..counted
                },
                InputMode::Invisible => TypeState {
                    input: self.input.push(ch),
                    cursor: self.cursor + 1,
                    ..counted
                },
            }
        }
    }
}

/// A typing session over one lesson.
pub struct TypingSession {
    pub lesson: Lesson,
    pub mode: PracticeMode,
    pub input_mode: InputMode,
    /// The characters of the lesson's language tag, resolved once.
    pub language: Vec<char>,
    pub current_exercise_index: usize,
    /// The records of the exercises finished so far.
    pub exercise_stats: Vec<ExerciseStats>,
    /// The characters of the current exercise.
    pub target_chars: Vec<char>,
    /// The characters typed so far, one per cursor step.
    pub input_chars: Vec<char>,
    /// One flag per target position: whether a mistake is marked there.
    pub error_flags: Vec<bool>,
    pub current_position: usize,
    /// When the first keystroke of the current exercise fell, in milliseconds.
    pub exercise_start_ms: Option<u64>,
    pub total_keystrokes: usize,
    pub correct_keystrokes: usize,
    /// The keystrokes of the last ten seconds.
    pub history: Vec<Keystroke>,
    /// Queued notifications, drained by the caller at leisure.
    pub pending_events: Vec<TypingEvent>,
}

impl TypingSession {
    /// Well-formedness, established by the constructor and preserved by every
    /// method: the lesson is non-empty, the cursor and the marks stay inside
    /// the current target, one input character stands per cursor step, and
    /// the counters are consistent.
    pub open spec fn wf(self) -> bool {
        &&& self.lesson.exercises@.len() > 0
        &&& self.current_exercise_index < self.lesson.exercises@.len()
        &&& self.target_chars@ == self.lesson.exercises@[self.current_exercise_index as int].content@
        &&& self.language@ == self.lesson.language@
        &&& self.error_flags@.len() == self.target_chars@.len()
        &&& self.current_position <= self.target_chars@.len()
        &&& self.input_chars@.len() == self.current_position
        &&& self.correct_keystrokes <= self.total_keystrokes
        &&& count_true(self.error_flags@) <= self.total_keystrokes
        &&& (forall|i: int|
            0 <= i < self.exercise_stats@.len() ==> spec_stats_wf(
                #[trigger] self.exercise_stats@[i],
            ))
    }

    /// The keystroke-level core of the session.
    pub open spec fn type_state(self) -> TypeState {
        TypeState {
            target: self.target_chars@,
            cursor: self.current_position as int,
            input: self.input_chars@,
            flags: self.error_flags@,
            total: self.total_keystrokes as int,
            correct: self.correct_keystrokes as int,
        }
    }

    /// Whether the lesson's language belongs to the CJK family.
    pub open spec fn spec_cjk(self) -> bool {
        spec_is_cjk_language(self.language@)
    }

    /// Start a session over `lesson`. The first exercise becomes the target;
    /// nothing is typed yet. The usual input mode is `InputMode::Forgiving`.
    pub fn new(lesson: Lesson, mode: PracticeMode, input_mode: InputMode) -> (r: Self)
        requires
            lesson.exercises@.len() > 0,
        ensures
            r.wf(),
            r.lesson == lesson,
            r.mode == mode,
            r.input_mode == input_mode,
            r.current_exercise_index == 0,
            r.exercise_stats@.len() == 0,
            r.current_position == 0,
            r.total_keystrokes == 0,
            r.correct_keystrokes == 0,
            r.exercise_start_ms is None,
            r.history@.len() == 0,
            r.pending_events@.len() == 0,
            forall|i: int| 0 <= i < r.error_flags@.len() ==> !r.error_flags@[i],
    {
        let target_chars = chars_of(lesson.exercises[0].content.as_str());
        let language = chars_of(lesson.language.as_str());
        let error_flags = Self::fresh_flags(target_chars.len());
        proof {
            lemma_count_true_all_false(error_flags@);
        }
        TypingSession {
            lesson,
            mode,
            input_mode,
            language,
            current_exercise_index: 0,
            exercise_stats: Vec::new(),
            target_chars,
            input_chars: Vec::new(),
            error_flags,
            current_position: 0,
            exercise_start_ms: None,
            total_keystrokes: 0,
            correct_keystrokes: 0,
            history: Vec::new(),
            pending_events: Vec::new(),
        }
    }

    /// `n` cleared error flags.
    fn fresh_flags(n: usize) -> (r: Vec<bool>)
        ensures
            r@.len() == n,
            forall|i: int| 0 <= i < n ==> !r@[i],
    {
        let mut r: Vec<bool> = Vec::new();
        let mut i: usize = 0;
        while i < n
            invariant
                i <= n,
                r@.len() == i,
                forall|j: int| 0 <= j < i ==> !r@[j],
            decreases n - i,
        {
            r.push(false);
            i = i + 1;
        }
        r
    }

    /// The exercise the cursor is working through.
    pub fn get_current_exercise(&self) -> (r: &Exercise)
        requires
            self.wf(),
        ensures
            *r == self.lesson.exercises@[self.current_exercise_index as int],
    {
        &self.lesson.exercises[self.current_exercise_index]
    }

    /// The current exercise index and the number of exercises.
    pub fn get_progress(&self) -> (r: (usize, usize))
        ensures
            r.0 == self.current_exercise_index,
            r.1 == self.lesson.exercises@.len(),
    {
        (self.current_exercise_index, self.lesson.exercises.len())
    }

    pub fn has_next_exercise(&self) -> (r: bool)
        ensures
            r == (self.current_exercise_index + 1 < self.lesson.exercises@.len()),
    {
        let n = self.lesson.exercises.len();
        n > 0 && self.current_exercise_index < n - 1
    }

    pub fn has_previous_exercise(&self) -> (r: bool)
        ensures
            r == (self.current_exercise_index > 0),
    {
        self.current_exercise_index > 0
    }

    /// Step back to the previous exercise, resetting all typing state and
    /// recording nothing; reports whether there was one.
    pub fn go_to_previous_exercise(&mut self) -> (r: bool)
        requires
            old(self).wf(),
        ensures
            final(self).wf(),
            r == (old(self).current_exercise_index > 0),
            r ==> final(self).current_exercise_index == old(self).current_exercise_index - 1,
            !r ==> *final(self) == *old(self),
            r ==> spec_reset_to(
                *old(self),
                *final(self),
                old(self).current_exercise_index - 1,
                old(self).exercise_stats@,
            ),
    {
        if self.current_exercise_index > 0 {
            self.current_exercise_index = self.current_exercise_index - 1;
            self.reset_for_current_exercise();
            true
        } else {
            false
        }
    }

    /// Step forward to the next exercise, resetting all typing state and
    /// recording nothing; reports whether there was one.
    pub fn go_to_next_exercise(&mut self) -> (r: bool)
        requires
            old(self).wf(),
        ensures
            final(self).wf(),
            r == (old(self).current_exercise_index + 1 < old(self).lesson.exercises@.len()),
            r ==> final(self).current_exercise_index == old(self).current_exercise_index + 1,
            !r ==> *final(self) == *old(self),
            r ==> spec_reset_to(
                *old(self),
                *final(self),
                old(self).current_exercise_index + 1,
                old(self).exercise_stats@,
            ),
    {
        let n = self.lesson.exercises.len();
        if n > 0 && self.current_exercise_index < n - 1 {
            self.current_exercise_index = self.current_exercise_index + 1;
            self.reset_for_current_exercise();
            true
        } else {
            false
        }
    }

    /// Whether the cursor has reached the end of the current exercise.
    pub fn is_current_exercise_complete(&self) -> (r: bool)
        ensures
            r == (self.current_position >= self.target_chars@.len()),
    {
        self.current_position >= self.target_chars.len()
    }

    /// Whether any position of the current exercise is marked erroneous.
    pub fn current_exercise_has_errors(&self) -> (r: bool)
        ensures
            r == (exists|i: int| 0 <= i < self.error_flags@.len() && self.error_flags@[i]),
    {
        let n = self.error_flags.len();
        let mut i: usize = 0;
        while i < n
            invariant
                i <= n,
                n == self.error_flags@.len(),
                forall|j: int| 0 <= j < i ==> !self.error_flags@[j],
            decreases n - i,
        {
            if self.error_flags[i] {
                return true;
            }
            i = i + 1;
        }
        false
    }

    /// Reset every per-exercise field for the exercise the index points at,
    /// keeping the lesson, the modes and the recorded statistics.
    pub fn reset_for_current_exercise(&mut self)
        requires
            old(self).lesson.exercises@.len() > 0,
            old(self).current_exercise_index < old(self).lesson.exercises@.len(),
            old(self).language@ == old(self).lesson.language@,
            forall|i: int|
                0 <= i < old(self).exercise_stats@.len() ==> spec_stats_wf(
                    #[trigger] old(self).exercise_stats@[i],
                ),
        ensures
            final(self).wf(),
            spec_reset_to(
                *old(self),
                *final(self),
                old(self).current_exercise_index as int,
                old(self).exercise_stats@,
            ),
    {
        let content = &self.lesson.exercises[self.current_exercise_index].content;
        let target_chars = chars_of(content.as_str());
        let n = target_chars.len();
        self.target_chars = target_chars;
        self.input_chars = Vec::new();
        self.current_position = 0;
        self.error_flags = Self::fresh_flags(n);
        self.exercise_start_ms = None;
        self.total_keystrokes = 0;
        self.correct_keystrokes = 0;
        self.history = Vec::new();
        proof {
            lemma_count_true_all_false(self.error_flags@);
        }
    }

    /// The target text of the current exercise.
    pub fn get_target_text(&self) -> (r: &String)
        requires
            self.wf(),
        ensures
            r@ == self.target_chars@,
    {
        &self.lesson.exercises[self.current_exercise_index].content
    }

    /// The characters typed so far, as a string.
    pub fn get_input_text(&self) -> (r: String)
        ensures
            r@ == self.input_chars@,
    {
        crate::text::string_from_chars(&self.input_chars)
    }

    /// The lesson's title.
    pub fn get_lesson_title(&self) -> (r: &String)
        ensures
            r@ == self.lesson.title@,
    {
        &self.lesson.title
    }

    /// Hand out the queued notifications and leave the queue empty.
    pub fn drain_events(&mut self) -> (r: Vec<TypingEvent>)
        ensures
            r@ == old(self).pending_events@,
            final(self).pending_events@.len() == 0,
            *final(self) == (TypingSession { pending_events: final(self).pending_events, ..*old(self) }),
    {
        let r = self.pending_events.split_off(0);
        proof {
            assert(old(self).pending_events@.subrange(0, old(self).pending_events@.len() as int)
                =~= old(self).pending_events@);
        }
        r
    }
}

/// The state after a reset onto exercise `index`: the typing state is fresh,
/// the target is the exercise's content, and everything else is kept.
pub open spec fn spec_reset_to(
    pre: TypingSession,
    post: TypingSession,
    index: int,
    stats: Seq<ExerciseStats>,
) -> bool {
    &&& post.lesson == pre.lesson
    &&& post.mode == pre.mode
    &&& post.input_mode == pre.input_mode
    &&& post.language@ == pre.language@
    &&& post.current_exercise_index == index
    &&& post.exercise_stats@ == stats
    &&& post.target_chars@ == pre.lesson.exercises@[index].content@
    &&& post.input_chars@.len() == 0
    &&& post.current_position == 0
    &&& forall|i: int| 0 <= i < post.error_flags@.len() ==> !post.error_flags@[i]
    &&& post.exercise_start_ms is None
    &&& post.total_keystrokes == 0
    &&& post.correct_keystrokes == 0
    &&& post.history@.len() == 0
    &&& post.pending_events@ == pre.pending_events@
}

/// A snapshot of the session for rendering: pull-based, cheap, and fully
/// determined by the session state and the time of the call.
#[derive(Debug, Clone)]
pub struct SessionSnapshot {
    pub cursor_position: usize,
    /// The marked positions within the last fifty cursor steps, ascending.
    pub recent_errors: Vec<usize>,
    /// The rolling speed estimate, in thousandths of a word per minute.
    pub current_wpm_milli: u64,
    /// Share of correct keystrokes in thousandths; 1000 before any keystroke.
    pub accuracy_milli: u32,
    /// Progress through the whole lesson in thousandths.
    pub progress_milli: u32,
}

/// The marked positions of `flags` in `[lo, n)`, ascending.
pub open spec fn err_positions_from(flags: Seq<bool>, lo: int, n: int) -> Seq<usize>
    decreases n - lo,
{
    if lo >= n {
        Seq::empty()
    } else {
        (if flags[lo] {
            seq![lo as usize]
        } else {
            Seq::<usize>::empty()
        }) + err_positions_from(flags, lo + 1, n)
    }
}

/// Accuracy as shown while typing: 1000 before the first keystroke.
pub open spec fn spec_snapshot_accuracy(correct: nat, total: nat) -> nat {
    if total == 0 {
        1000
    } else {
        correct * 1000 / total
    }
}

/// `x` capped at `u32::MAX`.
pub open spec fn cap_u32(x: int) -> int {
    if x > u32::MAX as int {
        u32::MAX as int
    } else {
        x
    }
}

/// Progress through the lesson in thousandths: finished exercises count
/// whole, the current one by its cursor.
pub open spec fn spec_progress_milli(
    completed: nat,
    total_ex: nat,
    cursor: nat,
    tlen: nat,
) -> int {
    if total_ex == 0 {
        0
    } else {
        let cur_milli: int = if tlen == 0 {
            0
        } else {
            (cursor * 1000) as int / (tlen as int)
        };
        cap_u32((completed * 1000 + cur_milli) / (total_ex as int))
    }
}

/// What a snapshot taken at time `now` holds.
pub open spec fn spec_snapshot_of(s: TypingSession, now: u64, r: SessionSnapshot) -> bool {
    &&& r.cursor_position == s.current_position
    &&& r.recent_errors@ == err_positions_from(
        s.error_flags@,
        if s.current_position >= 50 {
            s.current_position - 50
        } else {
            0
        },
        s.error_flags@.len() as int,
    )
    &&& r.current_wpm_milli as int == spec_current_wpm_milli(s.history@, now, s.spec_cjk())
    &&& r.accuracy_milli == spec_snapshot_accuracy(
        s.correct_keystrokes as nat,
        s.total_keystrokes as nat,
    )
    &&& r.progress_milli as int == spec_progress_milli(
        s.exercise_stats@.len(),
        s.lesson.exercises@.len(),
        s.current_position as nat,
        s.target_chars@.len(),
    )
}

/// The notifications one keystroke queues: a key event (with the word event
/// after a completed word), or the correction event when backspace clears a
/// mark.
pub open spec fn spec_keystroke_events(pre: TypingSession, ch: char, now: u64) -> Seq<
    TypingEvent,
> {
    let m = pre.type_state();
    if ch == spec_backspace() {
        if m.cursor > 0 && m.flags[m.cursor - 1] {
            seq![TypingEvent::ErrorCorrected { position: (m.cursor - 1) as usize }]
        } else {
            Seq::empty()
        }
    } else if m.cursor < m.target.len() && m.target[m.cursor] == ch {
        let key = TypingEvent::KeyPressed { ch, correct: true, position: m.cursor as usize };
        if ch == ' ' || ch == '\n' {
            seq![
                key,
                TypingEvent::WordCompleted {
                    wpm_milli: spec_current_wpm_milli(pre.history@, now, pre.spec_cjk()) as u64,
                },
            ]
        } else {
            seq![key]
        }
    } else {
        let after = m.step(ch, pre.input_mode).cursor;
        let pos: usize = if after > 0 {
            (after - 1) as usize
        } else {
            0
        };
        seq![TypingEvent::KeyPressed { ch, correct: false, position: pos }]
    }
}

/// The whole effect of one keystroke at time `now`: the typing core steps,
/// the start anchor is set on the first keystroke, the keystroke is logged
/// and the log trimmed to ten seconds (backspace is not logged), the due
/// notifications are queued, and everything else stays.
pub open spec fn spec_keystroke_transition(
    pre: TypingSession,
    post: TypingSession,
    ch: char,
    now: u64,
) -> bool {
    let correct = pre.current_position < pre.target_chars@.len() && pre.target_chars@[
        pre.current_position as int
    ] == ch;
    &&& post.type_state() == pre.type_state().step(ch, pre.input_mode)
    &&& post.lesson == pre.lesson
    &&& post.mode == pre.mode
    &&& post.input_mode == pre.input_mode
    &&& post.language == pre.language
    &&& post.current_exercise_index == pre.current_exercise_index
    &&& post.exercise_stats == pre.exercise_stats
    &&& post.exercise_start_ms == (if pre.exercise_start_ms is None {
        Some(now)
    } else {
        pre.exercise_start_ms
    })
    &&& post.history@ == (if ch == spec_backspace() {
        pre.history@
    } else {
        drop_old(pre.history@.push(Keystroke { at_ms: now, ch, correct }), now)
    })
    &&& post.pending_events@ == pre.pending_events@ + spec_keystroke_events(pre, ch, now)
}

impl TypingSession {
    /// Whether the lesson's language belongs to the CJK family.
    pub fn is_cjk(&self) -> (r: bool)
        ensures
            r == self.spec_cjk(),
    {
        is_cjk_language(&self.language)
    }

    /// The rolling speed estimate at time `now_ms`, in thousandths of a word
    /// per minute.
    pub fn calculate_current_wpm_at(&self, now_ms: u64) -> (r: u64)
        ensures
            r as int == spec_current_wpm_milli(self.history@, now_ms, self.spec_cjk()),
    {
        let cjk = self.is_cjk();
        current_wpm_milli(&self.history, now_ms, cjk)
    }

    /// Feed one keystroke into the session at time `now_ms`; see
    /// `spec_keystroke_transition` for the complete effect. In particular,
    /// backspace at position 0 moves nothing, and no index ever leaves its
    /// range.
    pub fn handle_keystroke_at(&mut self, ch: char, now_ms: u64)
        requires
            old(self).wf(),
            old(self).total_keystrokes < usize::MAX,
        ensures
            final(self).wf(),
            spec_keystroke_transition(*old(self), *final(self), ch, now_ms),
    {
        if self.exercise_start_ms.is_none() {
            self.exercise_start_ms = Some(now_ms);
        }
        self.total_keystrokes = self.total_keystrokes + 1;
        if ch == '\u{0008}' {
            // Backspace: step back, clear the mark there, log nothing.
            if self.current_position > 0 {
                let pos = self.current_position - 1;
                let was_marked = self.error_flags[pos];
                self.current_position = pos;
                self.input_chars.pop();
                self.error_flags.set(pos, false);
                proof {
                    lemma_count_true_update(old(self).error_flags@, pos as int, false);
                }
                if was_marked {
                    self.pending_events.push(TypingEvent::ErrorCorrected { position: pos });
                }
            }
            proof {
                assert(self.type_state() =~~= old(self).type_state().step(
                    ch,
                    old(self).input_mode,
                ));
                assert(self.pending_events@ =~= old(self).pending_events@
                    + spec_keystroke_events(*old(self), ch, now_ms));
            }
            return;
        }
        let correct = self.current_position < self.target_chars.len() && self.target_chars[
            self.current_position
        ] == ch;
        if correct {
            self.correct_keystrokes = self.correct_keystrokes + 1;
            self.input_chars.push(ch);
            self.error_flags.set(self.current_position, false);
            proof {
                lemma_count_true_update(
                    old(self).error_flags@,
                    self.current_position as int,
                    false,
                );
            }
            self.current_position = self.current_position + 1;
            self.pending_events.push(
                TypingEvent::KeyPressed { ch, correct: true, position: self.current_position - 1 },
            );
            if ch == ' ' || ch == '\n' {
                let wpm = self.calculate_current_wpm_at(now_ms);
                self.pending_events.push(TypingEvent::WordCompleted { wpm_milli: wpm });
            }
        } else if self.current_position >= self.target_chars.len() {
            // Typing past the end of the exercise moves nothing.
            let pos = if self.current_position > 0 {
                self.current_position - 1
            } else {
                0
            };
            self.pending_events.push(TypingEvent::KeyPressed { ch, correct: false, position: pos });
        } else {
            match self.input_mode {
                InputMode::Strict => {
                    self.error_flags.set(self.current_position, true);
                    proof {
                        lemma_count_true_update(
                            old(self).error_flags@,
                            self.current_position as int,
                            true,
                        );
                    }
                },
                InputMode::Forgiving => {
                    self.error_flags.set(self.current_position, true);
                    proof {
                        lemma_count_true_update(
                            old(self).error_flags@,
                            self.current_position as int,
                            true,
                        );
                    }
                    self.input_chars.push(ch);
                    self.current_position = self.current_position + 1;
                },
                InputMode::Invisible => {
                    self.input_chars.push(ch);
                    self.current_position = self.current_position + 1;
                },
            }
            let pos = if self.current_position > 0 {
                self.current_position - 1
            } else {
                0
            };
            self.pending_events.push(TypingEvent::KeyPressed { ch, correct: false, position: pos });
        }
        self.history.push(Keystroke { at_ms: now_ms, ch, correct });
        evict_old(&mut self.history, now_ms);
        proof {
            assert(self.type_state() =~~= old(self).type_state().step(
                ch,
                old(self).input_mode,
            ));
            assert(self.pending_events@ =~= old(self).pending_events@
                + spec_keystroke_events(*old(self), ch, now_ms));
        }
    }

    /// Feed one keystroke into the session, stamped with the wall clock.
    pub fn handle_keystroke(&mut self, ch: char)
        requires
            old(self).wf(),
            old(self).total_keystrokes < usize::MAX,
        ensures
            final(self).wf(),
            (exists|now: u64| spec_keystroke_transition(*old(self), *final(self), ch, now)),
    {
        let ms = clock_now_unix_ms();
        let now: u64 = if ms < 0 {
            0
        } else {
            ms as u64
        };
        self.handle_keystroke_at(ch, now);
        proof {
            assert(spec_keystroke_transition(*old(self), *self, ch, now));
        }
    }

    /// A snapshot for rendering, taken at time `now_ms`; every field is a
    /// function of the session state and `now_ms` alone.
    pub fn get_snapshot_at(&self, now_ms: u64) -> (r: SessionSnapshot)
        requires
            self.wf(),
        ensures
            spec_snapshot_of(*self, now_ms, r),
    {
        let lo: usize = if self.current_position >= 50 {
            self.current_position - 50
        } else {
            0
        };
        let n = self.error_flags.len();
        let mut recent_errors: Vec<usize> = Vec::new();
        let mut i: usize = lo;
        proof {
            assert(err_positions_from(self.error_flags@, lo as int, lo as int) =~= Seq::empty());
        }
        while i < n
            invariant
                lo <= i,
                i <= n,
                n == self.error_flags@.len(),
                err_positions_from(self.error_flags@, lo as int, n as int) =~= recent_errors@
                    + err_positions_from(self.error_flags@, i as int, n as int),
            decreases n - i,
        {
            if self.error_flags[i] {
                recent_errors.push(i);
            }
            i = i + 1;
        }
        let current_wpm_milli_v = self.calculate_current_wpm_at(now_ms);
        let accuracy: u32 = if self.total_keystrokes == 0 {
            1000
        } else {
            crate::stats::accuracy_milli(self.correct_keystrokes, self.total_keystrokes)
        };
        let progress = self.progress_milli();
        SessionSnapshot {
            cursor_position: self.current_position,
            recent_errors,
            current_wpm_milli: current_wpm_milli_v,
            accuracy_milli: accuracy,
            progress_milli: progress,
        }
    }

    /// A snapshot for rendering, stamped with the wall clock.
    pub fn get_snapshot(&self) -> (r: SessionSnapshot)
        requires
            self.wf(),
        ensures
            (exists|now: u64| spec_snapshot_of(*self, now, r)),
    {
        let ms = clock_now_unix_ms();
        let now: u64 = if ms < 0 {
            0
        } else {
            ms as u64
        };
        let r = self.get_snapshot_at(now);
        proof {
            assert(spec_snapshot_of(*self, now, r));
        }
        r
    }

    /// Progress through the lesson in thousandths.
    fn progress_milli(&self) -> (r: u32)
        requires
            self.wf(),
        ensures
            r as int == spec_progress_milli(
                self.exercise_stats@.len(),
                self.lesson.exercises@.len(),
                self.current_position as nat,
                self.target_chars@.len(),
            ),
    {
        let total_ex = self.lesson.exercises.len();
        let tlen = self.target_chars.len();
        let cur_milli: u128 = if tlen == 0 {
            0
        } else {
            (self.current_position as u128) * 1000 / (tlen as u128)
        };
        let completed = self.exercise_stats.len();
        let q: u128 = ((completed as u128) * 1000 + cur_milli) / (total_ex as u128);
        if q > u32::MAX as u128 {
            u32::MAX
        } else {
            q as u32
        }
    }
}

/// Relies on `chrono::Utc::now` and `chrono::DateTime::timestamp_millis`:
/// milliseconds since the Unix epoch, whatever the clock reads.
#[verifier::external_body]
fn clock_now_unix_ms() -> i64 {
    chrono::Utc::now().timestamp_millis()
}

/// How an update changes the number of set flags.
pub proof fn lemma_count_true_update(s: Seq<bool>, i: int, b: bool)
    requires
        0 <= i < s.len(),
    ensures
        count_true(s.update(i, b)) == count_true(s) - (if s[i] {
            1int
        } else {
            0int
        }) + (if b {
            1int
        } else {
            0int
        }),
    decreases s.len(),
{
    let t = s.update(i, b);
    assert(t.len() == s.len());
    if i == 0 {
        assert(t.drop_first() =~= s.drop_first());
    } else {
        assert(t[0] == s[0]);
        assert(t.drop_first() =~= s.drop_first().update(i - 1, b));
        lemma_count_true_update(s.drop_first(), i - 1, b);
    }
}


/// A per-exercise record is consistent: no more errors than keystrokes.
pub open spec fn spec_stats_wf(s: ExerciseStats) -> bool {
    s.error_count <= s.total_keystrokes
}

/// The first characters of an exercise as a reminder: up to twenty of them,
/// with an ellipsis when the text is longer.
pub open spec fn spec_preview(s: Seq<char>) -> Seq<char> {
    if s.len() <= 20 {
        s
    } else {
        s.take(20) + seq!['.', '.', '.']
    }
}

/// The total keystroke count of a list of records, saturating.
pub open spec fn sum_keystrokes(s: Seq<ExerciseStats>) -> nat
    decreases s.len(),
{
    if s.len() == 0 {
        0
    } else {
        sat_add_usize(s[0].total_keystrokes as nat, sum_keystrokes(s.drop_first()))
    }
}

/// The total error count of a list of records, saturating.
pub open spec fn sum_errors(s: Seq<ExerciseStats>) -> nat
    decreases s.len(),
{
    if s.len() == 0 {
        0
    } else {
        sat_add_usize(s[0].error_count as nat, sum_errors(s.drop_first()))
    }
}

/// The total duration of a list of records in seconds, saturating.
pub open spec fn sum_duration(s: Seq<ExerciseStats>) -> nat
    decreases s.len(),
{
    if s.len() == 0 {
        0
    } else {
        sat_add_u64(s[0].duration_secs as nat, sum_duration(s.drop_first()))
    }
}

pub open spec fn sat_add_usize(a: nat, b: nat) -> nat {
    if a + b > usize::MAX {
        usize::MAX as nat
    } else {
        a + b
    }
}

pub open spec fn sat_add_u64(a: nat, b: nat) -> nat {
    if a + b > u64::MAX {
        u64::MAX as nat
    } else {
        a + b
    }
}

/// The milliseconds the current exercise has been running at time `now`.
pub open spec fn spec_duration_ms(s: TypingSession, now: u64) -> int {
    match s.exercise_start_ms {
        Some(t) => age_ms(now, t),
        None => 0,
    }
}

/// What the record of the current exercise, closed at time `now`, holds:
/// the exercise index, a preview of its text, the exact keystroke and error
/// counts, the elapsed whole seconds, the accuracy, and the speed over the
/// elapsed time (zero under one whole second).
pub open spec fn spec_exercise_record(s: TypingSession, now: u64, r: ExerciseStats) -> bool {
    let dms = spec_duration_ms(s, now);
    &&& r.exercise_index == s.current_exercise_index
    &&& r.content_preview@ == spec_preview(s.target_chars@)
    &&& r.total_keystrokes == s.total_keystrokes
    &&& r.error_count == count_true(s.error_flags@)
    &&& r.duration_secs == dms / 1000
    &&& r.accuracy_milli == crate::stats::spec_accuracy_milli(
        s.correct_keystrokes as nat,
        s.total_keystrokes as nat,
    )
    &&& r.wpm_milli as int == (if dms / 1000 == 0 {
        0int
    } else {
        crate::stats::spec_wpm_milli(s.correct_keystrokes as nat, dms as nat, s.spec_cjk())
    })
}

/// The records a finished session reports: the closed exercises, plus the
/// current one when its end was reached.
pub open spec fn spec_all_records(
    s: TypingSession,
    now: u64,
    recs: Seq<ExerciseStats>,
) -> bool {
    if s.current_position >= s.target_chars@.len() {
        &&& recs.len() == s.exercise_stats@.len() + 1
        &&& recs.take(s.exercise_stats@.len() as int) == s.exercise_stats@
        &&& spec_exercise_record(s, now, recs.last())
    } else {
        recs == s.exercise_stats@
    }
}

/// Which weak units a session reports for its current target: Chinese
/// lessons count characters and two-ideograph pairs, English lessons count
/// words and punctuation, code and everything else counts characters.
pub open spec fn spec_session_weak_units(s: TypingSession, w: Seq<WeakUnit>) -> bool {
    let t = s.target_chars@;
    let f = s.error_flags@;
    if spec_has_prefix(s.language@, seq!['z', 'h', '-']) {
        spec_weak_units_ok(
            w,
            char_contents(t) + bigram_contents(t),
            f + bigram_errs(t, f),
            char_types(t) + bigram_types(t),
        )
    } else if spec_has_prefix(s.language@, seq!['e', 'n', '-']) {
        spec_weak_units_ok(
            w,
            word_contents(t) + punct_contents(t),
            word_errs(t, f) + punct_errs(t, f),
            word_types(t) + punct_types(t),
        )
    } else {
        spec_weak_units_ok(w, char_contents(t), f, char_types(t))
    }
}

/// What the closed session's statistics hold: the per-exercise records, the
/// saturating sums over them, the overall rates computed from those sums,
/// the given timestamp, and the ranked weak units of the current target.
pub open spec fn spec_session_stats(
    s: TypingSession,
    now: u64,
    timestamp: i64,
    r: SessionStats,
) -> bool {
    let total = sum_keystrokes(r.exercise_stats@);
    let errors = sum_errors(r.exercise_stats@);
    let secs = sum_duration(r.exercise_stats@);
    let correct: nat = if total >= errors {
        (total - errors) as nat
    } else {
        0
    };
    &&& r.lesson_id == s.lesson.id
    &&& spec_all_records(s, now, r.exercise_stats@)
    &&& r.total_keystrokes == total
    &&& r.error_count == errors
    &&& r.duration_secs == secs
    &&& r.overall_accuracy_milli == crate::stats::spec_accuracy_milli(correct, total)
    &&& r.overall_cpm_milli as int == crate::stats::spec_cpm_milli_secs(correct, secs)
    &&& r.overall_wpm_milli as int == crate::stats::spec_wpm_milli_secs(
        correct,
        secs,
        s.spec_cjk(),
    )
    &&& r.timestamp == timestamp
    &&& spec_session_weak_units(s, r.weak_units@)
}

impl TypingSession {
    /// How many positions of the current exercise are marked erroneous.
    pub fn error_count(&self) -> (r: usize)
        ensures
            r == count_true(self.error_flags@),
    {
        let n = self.error_flags.len();
        let mut i: usize = n;
        let mut count: usize = 0;
        while i > 0
            invariant
                i <= n,
                n == self.error_flags@.len(),
                count == count_true(self.error_flags@.skip(i as int)),
                count <= n - i,
            decreases i,
        {
            i = i - 1;
            proof {
                assert(self.error_flags@.skip(i as int).drop_first() =~= self.error_flags@.skip(
                    i + 1,
                ));
                assert(self.error_flags@.skip(i as int)[0] == self.error_flags@[i as int]);
            }
            if self.error_flags[i] {
                count = count + 1;
            }
        }
        proof {
            assert(self.error_flags@.skip(0) =~= self.error_flags@);
        }
        count
    }

    /// The ranked weak units of the current exercise, at the granularity of
    /// the lesson's language; see `spec_session_weak_units`.
    pub fn extract_weak_units(&self) -> (r: Vec<WeakUnit>)
        requires
            self.wf(),
        ensures
            spec_session_weak_units(*self, r@),
    {
        if has_lang_prefix(&self.language, 'z', 'h') {
            chinese_weak_units(&self.target_chars, &self.error_flags)
        } else if has_lang_prefix(&self.language, 'e', 'n') {
            english_weak_units(&self.target_chars, &self.error_flags)
        } else {
            character_weak_units(&self.target_chars, &self.error_flags)
        }
    }

    /// A preview of the target: its first twenty characters, with an
    /// ellipsis when there are more.
    fn preview(&self) -> (r: String)
        ensures
            r@ == spec_preview(self.target_chars@),
    {
        let n = self.target_chars.len();
        if n <= 20 {
            crate::text::string_from_chars(&self.target_chars)
        } else {
            let mut v: Vec<char> = Vec::new();
            let mut i: usize = 0;
            while i < 20
                invariant
                    i <= 20,
                    20 < self.target_chars@.len(),
                    v@ == self.target_chars@.take(i as int),
                decreases 20 - i,
            {
                v.push(self.target_chars[i]);
                proof {
                    assert(self.target_chars@.take(i + 1) =~= self.target_chars@.take(
                        i as int,
                    ).push(self.target_chars@[i as int]));
                }
                i = i + 1;
            }
            v.push('.');
            v.push('.');
            v.push('.');
            proof {
                assert(v@ =~= self.target_chars@.take(20) + seq!['.', '.', '.']);
            }
            crate::text::string_from_chars(&v)
        }
    }

    /// Close the current exercise at time `now_ms` and produce its record;
    /// see `spec_exercise_record`. The session itself is left unchanged.
    pub fn finalize_current_exercise_at(&self, now_ms: u64) -> (r: ExerciseStats)
        requires
            self.wf(),
        ensures
            spec_exercise_record(*self, now_ms, r),
            spec_stats_wf(r),
    {
        let duration_ms: u64 = match self.exercise_start_ms {
            Some(t) => now_ms.saturating_sub(t),
            None => 0,
        };
        let duration_secs: u64 = duration_ms / 1000;
        let accuracy = crate::stats::accuracy_milli(self.correct_keystrokes, self.total_keystrokes);
        let wpm: u64 = if duration_secs == 0 {
            0
        } else {
            crate::stats::wpm_milli(self.correct_keystrokes, duration_ms, self.is_cjk())
        };
        let errors = self.error_count();
        proof {
            lemma_count_true_bound(self.error_flags@);
        }
        ExerciseStats {
            exercise_index: self.current_exercise_index,
            content_preview: self.preview(),
            wpm_milli: wpm,
            accuracy_milli: accuracy,
            total_keystrokes: self.total_keystrokes,
            error_count: errors,
            duration_secs,
        }
    }

    /// Close the current exercise, record it, and move to the next exercise
    /// if there is one, resetting the typing state for it; reports whether a
    /// next exercise existed (false signals the end of the lesson).
    pub fn advance_to_next_exercise_at(&mut self, now_ms: u64) -> (r: bool)
        requires
            old(self).wf(),
        ensures
            final(self).wf(),
            r == (old(self).current_exercise_index + 1 < old(self).lesson.exercises@.len()),
            final(self).exercise_stats@.len() == old(self).exercise_stats@.len() + 1,
            final(self).exercise_stats@.take(old(self).exercise_stats@.len() as int) == old(
                self,
            ).exercise_stats@,
            spec_exercise_record(*old(self), now_ms, final(self).exercise_stats@.last()),
            r ==> spec_reset_to(
                *old(self),
                *final(self),
                old(self).current_exercise_index + 1,
                final(self).exercise_stats@,
            ),
            !r ==> *final(self) == (TypingSession {
                exercise_stats: final(self).exercise_stats,
                ..*old(self)
            }),
    {
        let stats = self.finalize_current_exercise_at(now_ms);
        self.exercise_stats.push(stats);
        proof {
            assert(self.exercise_stats@.take(old(self).exercise_stats@.len() as int)
                =~= old(self).exercise_stats@);
        }
        let n = self.lesson.exercises.len();
        if n > 0 && self.current_exercise_index < n - 1 {
            self.current_exercise_index = self.current_exercise_index + 1;
            self.reset_for_current_exercise();
            true
        } else {
            false
        }
    }

    /// Close the current exercise, record it, and move on, stamped with the
    /// wall clock.
    pub fn advance_to_next_exercise(&mut self) -> (r: bool)
        requires
            old(self).wf(),
        ensures
            final(self).wf(),
            r == (old(self).current_exercise_index + 1 < old(self).lesson.exercises@.len()),
            (exists|now: u64|
                {
                    &&& final(self).exercise_stats@.len() == old(self).exercise_stats@.len() + 1
                    &&& spec_exercise_record(
                        *old(self),
                        now,
                        final(self).exercise_stats@.last(),
                    )
                }),
            r ==> spec_reset_to(
                *old(self),
                *final(self),
                old(self).current_exercise_index + 1,
                final(self).exercise_stats@,
            ),
    {
        let ms = clock_now_unix_ms();
        let now: u64 = if ms < 0 {
            0
        } else {
            ms as u64
        };
        let r = self.advance_to_next_exercise_at(now);
        proof {
            assert({
                &&& final(self).exercise_stats@.len() == old(self).exercise_stats@.len() + 1
                &&& spec_exercise_record(*old(self), now, final(self).exercise_stats@.last())
            });
        }
        r
    }

    /// The records closed so far, copied.
    fn copy_records(&self) -> (r: Vec<ExerciseStats>)
        ensures
            r@ == self.exercise_stats@,
    {
        let n = self.exercise_stats.len();
        let mut r: Vec<ExerciseStats> = Vec::new();
        let mut i: usize = 0;
        while i < n
            invariant
                i <= n,
                n == self.exercise_stats@.len(),
                r@ == self.exercise_stats@.take(i as int),
            decreases n - i,
        {
            let e = &self.exercise_stats[i];
            let copy = ExerciseStats {
                exercise_index: e.exercise_index,
                content_preview: e.content_preview.clone(),
                wpm_milli: e.wpm_milli,
                accuracy_milli: e.accuracy_milli,
                total_keystrokes: e.total_keystrokes,
                error_count: e.error_count,
                duration_secs: e.duration_secs,
            };
            proof {
                assert(copy == self.exercise_stats@[i as int]);
                assert(self.exercise_stats@.take(i + 1) =~= self.exercise_stats@.take(
                    i as int,
                ).push(self.exercise_stats@[i as int]));
            }
            r.push(copy);
            i = i + 1;
        }
        proof {
            assert(self.exercise_stats@.take(n as int) =~= self.exercise_stats@);
        }
        r
    }

    /// Close the whole session at time `now_ms`, stamped `timestamp`: gather
    /// the per-exercise records (the current exercise too, when complete),
    /// sum them, compute the overall rates from the sums, and rank the weak
    /// units; see `spec_session_stats`.
    pub fn finalize_session_at(&self, now_ms: u64, timestamp: i64) -> (r: SessionStats)
        requires
            self.wf(),
        ensures
            spec_session_stats(*self, now_ms, timestamp, r),
    {
        let mut all = self.copy_records();
        if self.current_position >= self.target_chars.len() {
            let current = self.finalize_current_exercise_at(now_ms);
            all.push(current);
            proof {
                assert(all@.take(self.exercise_stats@.len() as int) =~= self.exercise_stats@);
            }
        }
        let (total, errors, secs) = Self::sum_records(&all);
        let correct: usize = if total >= errors {
            total - errors
        } else {
            0
        };
        let accuracy = crate::stats::accuracy_milli(if correct <= total {
            correct
        } else {
            total
        }, total);
        let cpm = crate::stats::cpm_milli_secs(correct, secs);
        let wpm = crate::stats::wpm_milli_secs(correct, secs, self.is_cjk());
        let weak_units = self.extract_weak_units();
        SessionStats {
            lesson_id: self.lesson.id,
            exercise_stats: all,
            overall_wpm_milli: wpm,
            overall_cpm_milli: cpm,
            overall_accuracy_milli: accuracy,
            total_keystrokes: total,
            error_count: errors,
            duration_secs: secs,
            timestamp,
            weak_units,
        }
    }

    /// Close the whole session, stamped with the wall clock.
    pub fn finalize_session(&self) -> (r: SessionStats)
        requires
            self.wf(),
        ensures
            (exists|now: u64, timestamp: i64| spec_session_stats(*self, now, timestamp, r)),
    {
        let ms = clock_now_unix_ms();
        let now: u64 = if ms < 0 {
            0
        } else {
            ms as u64
        };
        let timestamp: i64 = ms / 1000;
        let r = self.finalize_session_at(now, timestamp);
        proof {
            assert(spec_session_stats(*self, now, timestamp, r));
        }
        r
    }

    /// The saturating sums of keystrokes, errors and seconds over records.
    fn sum_records(recs: &Vec<ExerciseStats>) -> (r: (usize, usize, u64))
        ensures
            r.0 == sum_keystrokes(recs@),
            r.1 == sum_errors(recs@),
            r.2 == sum_duration(recs@),
    {
        let n = recs.len();
        let mut i: usize = n;
        let mut total: usize = 0;
        let mut errors: usize = 0;
        let mut secs: u64 = 0;
        while i > 0
            invariant
                i <= n,
                n == recs@.len(),
                total == sum_keystrokes(recs@.skip(i as int)),
                errors == sum_errors(recs@.skip(i as int)),
                secs == sum_duration(recs@.skip(i as int)),
            decreases i,
        {
            i = i - 1;
            proof {
                assert(recs@.skip(i as int).drop_first() =~= recs@.skip(i + 1));
                assert(recs@.skip(i as int)[0] == recs@[i as int]);
            }
            total = recs[i].total_keystrokes.saturating_add(total);
            errors = recs[i].error_count.saturating_add(errors);
            secs = recs[i].duration_secs.saturating_add(secs);
        }
        proof {
            assert(recs@.skip(0) =~= recs@);
        }
        (total, errors, secs)
    }
}

/// No more flags are set than there are flags.
pub proof fn lemma_count_true_bound(s: Seq<bool>)
    ensures
        count_true(s) <= s.len(),
    decreases s.len(),
{
    if s.len() > 0 {
        lemma_count_true_bound(s.drop_first());
    }
}


/// The state after feeding the characters of `inputs`, in order.
pub open spec fn run_steps(m: TypeState, inputs: Seq<char>, mode: InputMode) -> TypeState
    decreases inputs.len(),
{
    if inputs.len() == 0 {
        m
    } else {
        run_steps(m.step(inputs[0], mode), inputs.drop_first(), mode)
    }
}

proof fn lemma_perfect_run_from(m: TypeState, mode: InputMode, k: int)
    requires
        0 <= k <= m.target.len(),
        m.cursor == k,
        m.input == m.target.take(k),
        m.total == k,
        m.correct == k,
        m.flags.len() == m.target.len(),
        forall|i: int| 0 <= i < m.flags.len() ==> !m.flags[i],
        forall|i: int| 0 <= i < m.target.len() ==> m.target[i] != spec_backspace(),
    ensures
        run_steps(m, m.target.skip(k), mode).target == m.target,
        run_steps(m, m.target.skip(k), mode).cursor == m.target.len(),
        run_steps(m, m.target.skip(k), mode).total == m.target.len(),
        run_steps(m, m.target.skip(k), mode).correct == m.target.len(),
        run_steps(m, m.target.skip(k), mode).input == m.target,
        run_steps(m, m.target.skip(k), mode).flags.len() == m.target.len(),
        forall|i: int|
            0 <= i < m.target.len() ==> !run_steps(m, m.target.skip(k), mode).flags[i],
    decreases m.target.len() - k,
{
    if k == m.target.len() {
        assert(m.target.skip(k) =~= Seq::<char>::empty());
        assert(run_steps(m, m.target.skip(k), mode) == m);
        assert(m.input =~= m.target);
    } else {
        let ch = m.target[k];
        assert(m.target.skip(k)[0] == ch);
        assert(m.target.skip(k).drop_first() =~= m.target.skip(k + 1));
        let m2 = m.step(ch, mode);
        assert(m2.flags == m.flags.update(k, false));
        assert forall|i: int| 0 <= i < m2.flags.len() implies !m2.flags[i] by {}
        assert(m2.input =~= m.target.take(k + 1)) by {
            assert(m.target.take(k + 1) =~= m.target.take(k).push(ch));
        }
        lemma_perfect_run_from(m2, mode, k + 1);
        assert(run_steps(m, m.target.skip(k), mode) == run_steps(
            m2,
            m.target.skip(k + 1),
            mode,
        ));
    }
}

/// Law: typing exactly the target text, keystroke for keystroke, from a
/// fresh exercise, ends with the cursor at the end of the text, every
/// keystroke counted correct, and no position marked erroneous — whatever
/// the input mode.
pub proof fn lemma_perfect_run(m: TypeState, mode: InputMode)
    requires
        m.cursor == 0,
        m.input.len() == 0,
        m.total == 0,
        m.correct == 0,
        m.flags.len() == m.target.len(),
        forall|i: int| 0 <= i < m.flags.len() ==> !m.flags[i],
        forall|i: int| 0 <= i < m.target.len() ==> m.target[i] != spec_backspace(),
    ensures
        run_steps(m, m.target, mode).cursor == m.target.len(),
        run_steps(m, m.target, mode).total == m.target.len(),
        run_steps(m, m.target, mode).correct == m.target.len(),
        run_steps(m, m.target, mode).input == m.target,
        forall|i: int| 0 <= i < m.target.len() ==> !run_steps(m, m.target, mode).flags[i],
{
    assert(m.input =~= m.target.take(0));
    assert(m.target.skip(0) =~= m.target);
    lemma_perfect_run_from(m, mode, 0);
}

/// Law: when every keystroke was correct, the reported accuracy is a full
/// thousand thousandths.
pub proof fn lemma_perfect_accuracy(n: nat)
    ensures
        spec_snapshot_accuracy(n, n) == 1000,
        n > 0 ==> crate::stats::spec_accuracy_milli(n, n) == 1000,
{
    if n > 0 {
        vstd::arithmetic::div_mod::lemma_div_by_multiple(1000, n as int);
        assert(n * 1000 == 1000 * n);
    }
}

/// Law: backspace with the cursor at position zero moves nothing; only the
/// keystroke count grows.
pub proof fn lemma_backspace_at_zero(m: TypeState, mode: InputMode)
    requires
        m.cursor == 0,
    ensures
        m.step(spec_backspace(), mode) == (TypeState { total: m.total + 1, ..m }),
{
}

/// Law: under strict mode a mismatched keystroke leaves the cursor, the
/// typed characters and the correct count in place; the position is marked
/// and the keystroke still counts.
pub proof fn lemma_strict_blocks(m: TypeState, ch: char)
    requires
        0 <= m.cursor < m.target.len(),
        ch != spec_backspace(),
        m.target[m.cursor] != ch,
    ensures
        m.step(ch, InputMode::Strict) == (TypeState {
            total: m.total + 1,
            flags: m.flags.update(m.cursor, true),
            ..m
        }),
{
}

/// Law: under invisible mode a mismatched keystroke marks nothing, yet the
/// cursor advances and the keystroke counts toward the total and not toward
/// the correct count.
pub proof fn lemma_invisible_counts(m: TypeState, ch: char)
    requires
        0 <= m.cursor < m.target.len(),
        ch != spec_backspace(),
        m.target[m.cursor] != ch,
    ensures
        m.step(ch, InputMode::Invisible) == (TypeState {
            total: m.total + 1,
            input: m.input.push(ch),
            cursor: m.cursor + 1,
            ..m
        }),
        m.step(ch, InputMode::Invisible).flags == m.flags,
        m.step(ch, InputMode::Invisible).correct == m.correct,
{
}

/// Law: two snapshots of the same session at the same instant agree in
/// every field.
pub proof fn lemma_snapshot_idempotent(
    s: TypingSession,
    now: u64,
    a: SessionSnapshot,
    b: SessionSnapshot,
)
    requires
        spec_snapshot_of(s, now, a),
        spec_snapshot_of(s, now, b),
    ensures
        a.cursor_position == b.cursor_position,
        a.recent_errors@ == b.recent_errors@,
        a.current_wpm_milli == b.current_wpm_milli,
        a.accuracy_milli == b.accuracy_milli,
        a.progress_milli == b.progress_milli,
{
}

/// All-false flags count zero set flags.
pub proof fn lemma_count_true_all_false(s: Seq<bool>)
    requires
        forall|i: int| 0 <= i < s.len() ==> !s[i],
    ensures
        count_true(s) == 0,
    decreases s.len(),
{
    if s.len() > 0 {
        lemma_count_true_all_false(s.drop_first());
    }
}

} // verus!
