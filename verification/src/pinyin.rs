//! A small pinyin input method: letters collect in a buffer, the buffer is
//! looked up in a fixed pinyin-to-ideograph table, and space or a digit picks
//! a candidate.

use crate::text::pop_char;
use crate::text::push_char;
use crate::text::str_eq;
use vstd::prelude::*;

verus! {

/// The visible state of the input method: the pinyin typed so far, the
/// candidate ideographs it matches, and whether composition is under way.
#[derive(Debug, Clone)]
pub struct PinyinState {
    pub buffer: String,
    pub candidates: Vec<char>,
    pub composing: bool,
}

/// What one keystroke of the input method produced.
#[derive(Debug, Clone, PartialEq)]
pub enum PinyinInputResult {
    /// Still composing; nothing leaves the input method.
    Composing,
    /// A chosen ideograph leaves the input method.
    Commit(char),
    /// The keystroke does not belong to a composition and passes through.
    PassThrough(char),
}

/// An ASCII letter, the only characters that extend a composition.
pub open spec fn spec_is_ascii_letter(c: char) -> bool {
    ('a' <= c && c <= 'z') || ('A' <= c && c <= 'Z')
}

/// The selection digits.
pub open spec fn spec_is_digit_1_9(c: char) -> bool {
    '1' <= c && c <= '9'
}

/// `c` with an ASCII upper-case letter folded to lower case.
pub open spec fn spec_lower_ascii(c: char) -> char {
    if 'A' <= c && c <= 'Z' {
        (((c as u8) + 32) as u8) as char
    } else {
        c
    }
}

/// The candidate ideographs for a complete pinyin syllable; the fixed table
/// of the most common syllables, empty for anything else.
pub open spec fn spec_candidates_for(p: Seq<char>) -> Seq<char> {
    if p.len() == 2 && p == "ni"@ {
        seq!['你', '尼', '泥']
    } else if p.len() == 3 && p == "hao"@ {
        seq!['好', '号', '浩']
    } else if p.len() == 2 && p == "ma"@ {
        seq!['吗', '马', '妈']
    } else if p.len() == 2 && p == "wo"@ {
        seq!['我', '握', '沃']
    } else if p.len() == 2 && p == "de"@ {
        seq!['的', '得', '地']
    } else if p.len() == 3 && p == "shi"@ {
        seq!['是', '时', '事']
    } else if p.len() == 2 && p == "yi"@ {
        seq!['一', '已', '以']
    } else if p.len() == 2 && p == "ge"@ {
        seq!['个', '各', '歌']
    } else if p.len() == 3 && p == "zhe"@ {
        seq!['这', '者', '着']
    } else if p.len() == 2 && p == "le"@ {
        seq!['了', '乐', '勒']
    } else if p.len() == 2 && p == "ta"@ {
        seq!['他', '她', '它']
    } else if p.len() == 3 && p == "men"@ {
        seq!['们', '门', '闷']
    } else if p.len() == 3 && p == "ren"@ {
        seq!['人', '任', '认']
    } else if p.len() == 3 && p == "zai"@ {
        seq!['在', '再', '载']
    } else if p.len() == 3 && p == "you"@ {
        seq!['有', '又', '友']
    } else if p.len() == 3 && p == "lai"@ {
        seq!['来', '莱', '赖']
    } else if p.len() == 2 && p == "qu"@ {
        seq!['去', '取', '趣']
    } else if p.len() == 3 && p == "kan"@ {
        seq!['看', '刊', '砍']
    } else if p.len() == 4 && p == "shuo"@ {
        seq!['说', '硕', '烁']
    } else if p.len() == 3 && p == "dao"@ {
        seq!['到', '道', '倒']
    } else {
        Seq::<char>::empty()
    }
}

/// An empty, idle state.
pub open spec fn spec_cleared(s: PinyinState) -> bool {
    &&& s.buffer@.len() == 0
    &&& s.candidates@.len() == 0
    &&& !s.composing
}

/// The pinyin input method.
#[derive(Debug, Clone)]
pub struct PinyinProcessor {
    pub state: PinyinState,
}

impl PinyinProcessor {
    /// Well-formedness: composition is under way exactly while the buffer is
    /// non-empty, and the candidates always match the buffer.
    pub open spec fn inv(self) -> bool {
        &&& self.state.composing <==> self.state.buffer@.len() > 0
        &&& self.state.candidates@ == spec_candidates_for(self.state.buffer@)
    }

    pub fn new() -> (r: Self)
        ensures
            r.inv(),
            spec_cleared(r.state),
    {
        let r = PinyinProcessor {
            state: PinyinState { buffer: String::new(), candidates: Vec::new(), composing: false },
        };
        proof {
            assert(r.state.candidates@ =~= spec_candidates_for(r.state.buffer@));
        }
        r
    }

    /// The current state, for rendering.
    pub fn state(&self) -> (r: &PinyinState)
        ensures
            *r == self.state,
    {
        &self.state
    }

    /// Feed one keystroke into the input method.
    pub fn handle_input(&mut self, ch: char) -> (r: PinyinInputResult)
        requires
            old(self).inv(),
        ensures
            final(self).inv(),
            // A letter extends the buffer and recomputes the candidates.
            spec_is_ascii_letter(ch) ==> {
                &&& final(self).state.buffer@ == old(self).state.buffer@.push(
                    spec_lower_ascii(ch),
                )
                &&& final(self).state.composing
                &&& r == PinyinInputResult::Composing
            },
            // Space picks the first candidate.
            ch == ' ' ==> {
                if !old(self).state.composing || old(self).state.candidates@.len() == 0 {
                    &&& final(self).state == old(self).state
                    &&& r == PinyinInputResult::PassThrough(' ')
                } else {
                    &&& spec_cleared(final(self).state)
                    &&& r == PinyinInputResult::Commit(old(self).state.candidates@[0])
                }
            },
            // A digit picks the corresponding candidate, if there is one.
            spec_is_digit_1_9(ch) ==> {
                if !old(self).state.composing || old(self).state.candidates@.len() == 0 {
                    &&& final(self).state == old(self).state
                    &&& r == PinyinInputResult::PassThrough(' ')
                } else if (ch as u32) - ('1' as u32) < old(self).state.candidates@.len() {
                    &&& spec_cleared(final(self).state)
                    &&& r == PinyinInputResult::Commit(
                        old(self).state.candidates@[(ch as u32) - ('1' as u32)],
                    )
                } else {
                    &&& final(self).state == old(self).state
                    &&& r == PinyinInputResult::Composing
                }
            },
            // Backspace shortens the buffer.
            ch == '\u{0008}' ==> {
                if old(self).state.buffer@.len() == 0 {
                    &&& final(self).state == old(self).state
                    &&& r == PinyinInputResult::PassThrough(ch)
                } else {
                    &&& final(self).state.buffer@ == old(self).state.buffer@.drop_last()
                    &&& final(self).state.composing == (old(self).state.buffer@.len() > 1)
                    &&& r == PinyinInputResult::Composing
                }
            },
            // Anything else abandons the composition and passes through.
            !spec_is_ascii_letter(ch) && ch != ' ' && !spec_is_digit_1_9(ch) && ch != '\u{0008}'
                ==> {
                &&& spec_cleared(final(self).state)
                &&& r == PinyinInputResult::PassThrough(ch)
            },
    {
        if ('a' <= ch && ch <= 'z') || ('A' <= ch && ch <= 'Z') {
            let low: char = if 'A' <= ch && ch <= 'Z' {
                let b: u8 = ch as u8;
                (b + 32) as char
            } else {
                ch
            };
            push_char(&mut self.state.buffer, low);
            self.state.composing = true;
            self.update_candidates();
            PinyinInputResult::Composing
        } else if ch == ' ' {
            self.select_candidate(0)
        } else if '1' <= ch && ch <= '9' {
            let index: usize = ((ch as u32) - ('1' as u32)) as usize;
            self.select_candidate(index)
        } else if ch == '\u{0008}' {
            if self.state.buffer.as_str().unicode_len() == 0 {
                PinyinInputResult::PassThrough(ch)
            } else {
                pop_char(&mut self.state.buffer);
                if self.state.buffer.as_str().unicode_len() == 0 {
                    self.clear();
                } else {
                    self.update_candidates();
                }
                PinyinInputResult::Composing
            }
        } else {
            if self.state.composing {
                self.clear();
            }
            PinyinInputResult::PassThrough(ch)
        }
    }

    /// Recompute the candidates from the buffer.
    fn update_candidates(&mut self)
        ensures
            final(self).state.buffer == old(self).state.buffer,
            final(self).state.composing == old(self).state.composing,
            final(self).state.candidates@ == spec_candidates_for(final(self).state.buffer@),
    {
        if self.state.buffer.as_str().unicode_len() == 0 {
            self.state.candidates = Vec::new();
            return;
        }
        let cands = Self::get_candidates_for_pinyin(self.state.buffer.as_str());
        self.state.candidates = cands;
    }

    /// The candidate ideographs for a pinyin syllable, from the fixed table.
    pub fn get_candidates_for_pinyin(pinyin: &str) -> (r: Vec<char>)
        ensures
            r@ == spec_candidates_for(pinyin@),
    {
        proof {
            reveal_strlit("ni");
            reveal_strlit("hao");
            reveal_strlit("ma");
            reveal_strlit("wo");
            reveal_strlit("de");
            reveal_strlit("shi");
            reveal_strlit("yi");
            reveal_strlit("ge");
            reveal_strlit("zhe");
            reveal_strlit("le");
            reveal_strlit("ta");
            reveal_strlit("men");
            reveal_strlit("ren");
            reveal_strlit("zai");
            reveal_strlit("you");
            reveal_strlit("lai");
            reveal_strlit("qu");
            reveal_strlit("kan");
            reveal_strlit("shuo");
            reveal_strlit("dao");
        }
        let r = if str_eq(pinyin, "ni") {
            Self::three('你', '尼', '泥')
        } else if str_eq(pinyin, "hao") {
            Self::three('好', '号', '浩')
        } else if str_eq(pinyin, "ma") {
            Self::three('吗', '马', '妈')
        } else if str_eq(pinyin, "wo") {
            Self::three('我', '握', '沃')
        } else if str_eq(pinyin, "de") {
            Self::three('的', '得', '地')
        } else if str_eq(pinyin, "shi") {
            Self::three('是', '时', '事')
        } else if str_eq(pinyin, "yi") {
            Self::three('一', '已', '以')
        } else if str_eq(pinyin, "ge") {
            Self::three('个', '各', '歌')
        } else if str_eq(pinyin, "zhe") {
            Self::three('这', '者', '着')
        } else if str_eq(pinyin, "le") {
            Self::three('了', '乐', '勒')
        } else if str_eq(pinyin, "ta") {
            Self::three('他', '她', '它')
        } else if str_eq(pinyin, "men") {
            Self::three('们', '门', '闷')
        } else if str_eq(pinyin, "ren") {
            Self::three('人', '任', '认')
        } else if str_eq(pinyin, "zai") {
            Self::three('在', '再', '载')
        } else if str_eq(pinyin, "you") {
            Self::three('有', '又', '友')
        } else if str_eq(pinyin, "lai") {
            Self::three('来', '莱', '赖')
        } else if str_eq(pinyin, "qu") {
            Self::three('去', '取', '趣')
        } else if str_eq(pinyin, "kan") {
            Self::three('看', '刊', '砍')
        } else if str_eq(pinyin, "shuo") {
            Self::three('说', '硕', '烁')
        } else if str_eq(pinyin, "dao") {
            Self::three('到', '道', '倒')
        } else {
            Vec::new()
        };
        proof {
            assert(r@ =~= spec_candidates_for(pinyin@));
        }
        r
    }

    fn three(a: char, b: char, c: char) -> (r: Vec<char>)
        ensures
            r@ == seq![a, b, c],
    {
        let mut r: Vec<char> = Vec::new();
        r.push(a);
        r.push(b);
        r.push(c);
        proof {
            assert(r@ =~= seq![a, b, c]);
        }
        r
    }

    /// Commit the candidate at `index`, if composition is under way.
    fn select_candidate(&mut self, index: usize) -> (r: PinyinInputResult)
        requires
            old(self).inv(),
        ensures
            final(self).inv(),
            if !old(self).state.composing || old(self).state.candidates@.len() == 0 {
                &&& final(self).state == old(self).state
                &&& r == PinyinInputResult::PassThrough(' ')
            } else if index < old(self).state.candidates@.len() {
                &&& spec_cleared(final(self).state)
                &&& r == PinyinInputResult::Commit(old(self).state.candidates@[index as int])
            } else {
                &&& final(self).state == old(self).state
                &&& r == PinyinInputResult::Composing
            },
    {
        if !self.state.composing || self.state.candidates.len() == 0 {
            return PinyinInputResult::PassThrough(' ');
        }
        if index < self.state.candidates.len() {
            let ch = self.state.candidates[index];
            self.clear();
            PinyinInputResult::Commit(ch)
        } else {
            PinyinInputResult::Composing
        }
    }

    /// Empty the buffer and the candidates and end the composition.
    fn clear(&mut self)
        ensures
            final(self).inv(),
            spec_cleared(final(self).state),
    {
        self.state.buffer = String::new();
        self.state.candidates = Vec::new();
        self.state.composing = false;
        proof {
            assert(self.state.candidates@ =~= spec_candidates_for(self.state.buffer@));
        }
    }

    /// Return the input method to its idle state.
    pub fn reset(&mut self)
        ensures
            final(self).inv(),
            spec_cleared(final(self).state),
    {
        self.clear();
    }
}

impl Default for PinyinProcessor {
    fn default() -> (r: Self)
        ensures
            r.inv(),
            spec_cleared(r.state),
    {
        PinyinProcessor::new()
    }
}

} // verus!
