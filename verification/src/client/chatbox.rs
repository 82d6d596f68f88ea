use vstd::prelude::*;
use vstd::utf8::{encode_utf8, is_char_boundary};

use crate::formatting::{push_char, truncate_bytes};

verus! {

/// The last `n` items of `s`, or all of them if there are fewer.
pub open spec fn last_n<T>(s: Seq<T>, n: int) -> Seq<T> {
    if s.len() <= n {
        s
    } else {
        s.skip(s.len() - n)
    }
}

/// The lines a chat box keeps: at most `history_length` of the last lines
/// printed, of which the last `visible_lines` show.
pub struct ChatHistory {
    visible_lines: i32,
    history_length: i32,
    history: Vec<String>,
    typing: String,
    typing_flicker: bool,
}

impl ChatHistory {
    /// The lines kept, oldest first.
    pub closed spec fn lines(&self) -> Seq<Seq<char>> {
        self.history@.map_values(|l: String| l@)
    }

    /// The line being typed.
    pub closed spec fn typing_line(&self) -> Seq<char> {
        self.typing@
    }

    /// Whether the typing cursor shows.
    pub closed spec fn flicker(&self) -> bool {
        self.typing_flicker
    }

    pub closed spec fn capacity(&self) -> int {
        self.history_length as int
    }

    pub closed spec fn shown(&self) -> int {
        self.visible_lines as int
    }

    pub closed spec fn wf(&self) -> bool {
        &&& 0 <= self.visible_lines
        &&& 0 <= self.history_length
        &&& self.history@.len() <= self.history_length
    }

    /// A history that keeps `history_length` lines and shows
    /// `visible_lines` of them.
    pub fn new(visible_lines: i32, history_length: i32) -> (h: Self)
        requires
            visible_lines >= 0,
            history_length >= 0,
        ensures
            h.wf(),
            h.lines() == Seq::<Seq<char>>::empty(),
            h.capacity() == history_length,
            h.shown() == visible_lines,
            h.typing_line() == Seq::<char>::empty(),
            !h.flicker(),
    {
        let h = ChatHistory {
            visible_lines,
            history_length,
            history: Vec::new(),
            typing: String::new(),
            typing_flicker: false,
        };
        assert(h.lines() =~= Seq::<Seq<char>>::empty());
        h
    }

    /// Prints lines, already cut to the box's width: the history becomes
    /// the last `capacity` lines of the old history followed by them.
    pub fn println_lines(&mut self, lines: Vec<String>)
        requires
            old(self).wf(),
            lines@.len() <= i32::MAX,
        ensures
            final(self).wf(),
            final(self).capacity() == old(self).capacity(),
            final(self).shown() == old(self).shown(),
            final(self).lines() == last_n(
                old(self).lines() + lines@.map_values(|l: String| l@),
                old(self).capacity(),
            ),
            final(self).typing_line() == old(self).typing_line(),
            final(self).flicker() == old(self).flicker(),
    {
        let ghost added = lines@.map_values(|l: String| l@);
        let mut lines = lines;
        let add_len: i32 = if (self.history_length as usize) < lines.len() {
            self.history_length
        } else {
            lines.len() as i32
        };
        let drop_lines = lines.len() - add_len as usize;
        let mut kept = lines.split_off(drop_lines);
        let spare = self.history_length - add_len;
        let history_remove: usize = if self.history.len() as i32 > spare {
            (self.history.len() as i32 - spare) as usize
        } else {
            0
        };
        let mut rest = self.history.split_off(history_remove);
        rest.append(&mut kept);
        self.history = rest;
        proof {
            let all = old(self).lines() + added;
            assert(self.lines() =~= last_n(all, self.history_length as int));
        }
    }

    /// The lines that show, oldest first: the last `shown` lines kept.
    pub fn get_visible_history(&self) -> (v: Vec<String>)
        requires
            self.wf(),
        ensures
            v@.map_values(|l: String| l@) == last_n(self.lines(), self.shown()),
    {
        let start: usize = if self.history.len() as i32 > self.visible_lines {
            (self.history.len() as i32 - self.visible_lines) as usize
        } else {
            0
        };
        let mut v: Vec<String> = Vec::new();
        let mut i = start;
        while i < self.history.len()
            invariant
                start <= i <= self.history@.len(),
                v@.map_values(|l: String| l@) == self.lines().subrange(start as int, i as int),
            decreases self.history@.len() - i,
        {
            v.push(self.history[i].clone());
            assert(self.lines().subrange(start as int, i + 1) =~= self.lines().subrange(start as int, i as int).push(
                self.history@[i as int]@,
            ));
            assert(v@.map_values(|l: String| l@) =~= self.lines().subrange(start as int, i as int).push(
                self.history@[i as int]@,
            ));
            i = i + 1;
        }
        assert(last_n(self.lines(), self.shown()) =~= self.lines().subrange(start as int, self.history@.len() as int));
        v
    }
}

/// Where `remove_typing(count)` cuts a line of `len` bytes: `count` bytes
/// from the end, and no further than its start.
pub open spec fn typing_cut(len: int, count: int) -> int {
    if len - count > 0 {
        len - count
    } else {
        0
    }
}

impl ChatHistory {
    /// The line being typed.
    pub fn get_typing(&self) -> (t: &String)
        ensures
            t@ == self.typing_line(),
    {
        &self.typing
    }

    /// Adds a character to the end of the line being typed.
    pub fn add_typing(&mut self, c: char)
        ensures
            final(self).typing_line() == old(self).typing_line().push(c),
            final(self).lines() == old(self).lines(),
            final(self).capacity() == old(self).capacity(),
            final(self).shown() == old(self).shown(),
            final(self).flicker() == old(self).flicker(),
            old(self).wf() ==> final(self).wf(),
    {
        push_char(&mut self.typing, c);
    }

    /// Takes `count` bytes off the end of the line being typed, or all of
    /// them if it holds fewer; a negative count takes nothing. The cut must
    /// fall between two characters.
    pub fn remove_typing(&mut self, count: i32)
        requires
            encode_utf8(old(self).typing_line()).len() <= i32::MAX,
            encode_utf8(old(self).typing_line()).len() - count <= i32::MAX,
            ({
                let bytes = encode_utf8(old(self).typing_line());
                let cut = typing_cut(bytes.len() as int, count as int);
                cut >= bytes.len() || is_char_boundary(bytes, cut)
            }),
        ensures
            ({
                let bytes = encode_utf8(old(self).typing_line());
                let cut = typing_cut(bytes.len() as int, count as int);
                &&& cut >= bytes.len() ==> final(self).typing_line() == old(self).typing_line()
                &&& cut < bytes.len() ==> encode_utf8(final(self).typing_line()) == bytes.take(cut)
            }),
            final(self).lines() == old(self).lines(),
            final(self).capacity() == old(self).capacity(),
            final(self).shown() == old(self).shown(),
            final(self).flicker() == old(self).flicker(),
            old(self).wf() ==> final(self).wf(),
    {
        let len = self.typing.as_str().len() as i32;
        let cut: i32 = if len - count > 0 {
            len - count
        } else {
            0
        };
        truncate_bytes(&mut self.typing, cut as usize);
    }

    /// Empties the line being typed.
    pub fn erase_typing(&mut self)
        ensures
            final(self).typing_line() == Seq::<char>::empty(),
            final(self).lines() == old(self).lines(),
            final(self).capacity() == old(self).capacity(),
            final(self).shown() == old(self).shown(),
            final(self).flicker() == old(self).flicker(),
            old(self).wf() ==> final(self).wf(),
    {
        self.typing = String::new();
    }

    /// Shows or hides the typing cursor.
    pub fn set_typing_flicker(&mut self, typing_flicker: bool)
        ensures
            final(self).flicker() == typing_flicker,
            final(self).typing_line() == old(self).typing_line(),
            final(self).lines() == old(self).lines(),
            final(self).capacity() == old(self).capacity(),
            final(self).shown() == old(self).shown(),
            old(self).wf() ==> final(self).wf(),
    {
        self.typing_flicker = typing_flicker;
    }
}

/// The history never holds more lines than it keeps.
pub proof fn lemma_history_bounded(h: ChatHistory)
    requires
        h.wf(),
    ensures
        h.lines().len() <= h.capacity(),
        0 <= h.shown(),
{
}

} // verus!
