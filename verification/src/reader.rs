//! The reader: a text with a position in it that moves forward as characters
//! are read, and can be saved and put back.
use crate::ast::Pos;
use crate::error::{Error, Notice, Outcome};
use vstd::prelude::*;
use vstd::string::StrSliceExecFns;

verus! {

/// Where a reader stands: how far into the text, counted in bytes of its
/// UTF-8 form (`cursor`) and in characters (`index`), and the line and column
/// of the next character. Small, and copied to take a snapshot.
#[derive(Clone, Copy, Debug, PartialEq, Eq, Structural)]
pub struct ReaderState {
    pub cursor: usize,
    pub index: usize,
    pub pos: Pos,
}

/// The number of bytes that `c` takes in UTF-8.
pub open spec fn width(c: char) -> nat {
    if (c as u32) < 0x80 {
        1
    } else if (c as u32) < 0x800 {
        2
    } else if (c as u32) < 0x10000 {
        3
    } else {
        4
    }
}

impl ReaderState {
    /// The state after reading `c`.
    pub open spec fn step(self, c: char) -> ReaderState {
        ReaderState {
            cursor: (self.cursor + width(c)) as usize,
            index: (self.index + 1) as usize,
            pos: self.pos.after(c),
        }
    }

    /// The state after reading the next `n` characters of `input`.
    pub open spec fn walk(self, input: Seq<char>, n: nat) -> ReaderState
        decreases n,
    {
        if n == 0 {
            self
        } else {
            self.walk(input, (n - 1) as nat).step(input[self.index + n - 1])
        }
    }

    /// The state lies inside `input`, and neither the byte offset nor line
    /// nor column can leave `usize` on the way to its end.
    pub open spec fn fits(self, input: Seq<char>) -> bool {
        &&& self.index <= input.len() <= usize::MAX
        &&& self.cursor + 4 * (input.len() - self.index) <= usize::MAX
        &&& self.pos.line + (input.len() - self.index) <= usize::MAX
        &&& self.pos.column + (input.len() - self.index) <= usize::MAX
    }
}

/// Reading one character from a state that fits gives a state that fits.
pub proof fn lemma_step_fits(st: ReaderState, input: Seq<char>)
    requires
        st.fits(input),
        st.index < input.len(),
    ensures
        st.step(input[st.index as int]).fits(input),
        st.step(input[st.index as int]).index == st.index + 1,
        st.step(input[st.index as int]) == st.walk(input, 1),
        st.pos.le(st.step(input[st.index as int]).pos),
{
    assert(st.walk(input, 0) == st);
}

/// Reading `n` characters that the text still holds moves the index by `n`,
/// never moves the position backwards, and gives a state that fits.
pub proof fn lemma_walk_fits(st: ReaderState, input: Seq<char>, n: nat)
    requires
        st.fits(input),
        st.index + n <= input.len(),
    ensures
        st.walk(input, n).fits(input),
        st.walk(input, n).index == st.index + n,
        st.pos.le(st.walk(input, n).pos),
    decreases n,
{
    if n > 0 {
        lemma_walk_fits(st, input, (n - 1) as nat);
        lemma_step_fits(st.walk(input, (n - 1) as nat), input);
    }
}

/// Reading `a` characters and then `b` more is reading `a + b`.
pub proof fn lemma_walk_add(st: ReaderState, input: Seq<char>, a: nat, b: nat)
    requires
        st.fits(input),
        st.index + a + b <= input.len(),
    ensures
        st.walk(input, a).walk(input, b) == st.walk(input, a + b),
    decreases b,
{
    lemma_walk_fits(st, input, a);
    if b > 0 {
        lemma_walk_add(st, input, a, (b - 1) as nat);
    }
}

/// The length of the longest run of characters from `from` on that `accept`
/// holds of.
pub open spec fn run_len(input: Seq<char>, from: int, accept: spec_fn(char) -> bool) -> nat
    decreases input.len() - from,
{
    if 0 <= from < input.len() && accept(input[from]) {
        1 + run_len(input, from + 1, accept)
    } else {
        0
    }
}

/// A run of accepted characters that ends at the end of the text or before a
/// character that is not accepted is the longest one.
pub proof fn lemma_run_len(input: Seq<char>, from: int, accept: spec_fn(char) -> bool, n: nat)
    requires
        0 <= from,
        from + n <= input.len(),
        forall|i: int| from <= i < from + n ==> accept(#[trigger] input[i]),
        from + n < input.len() ==> !accept(input[from + n]),
    ensures
        run_len(input, from, accept) == n,
    decreases n,
{
    if n > 0 {
        lemma_run_len(input, from + 1, accept, (n - 1) as nat);
    }
}

/// The number of bytes that `c` takes in UTF-8.
pub fn utf8_width(c: char) -> (n: usize)
    ensures
        n == width(c),
{
    let code = c as u32;
    if code < 0x80 {
        1
    } else if code < 0x800 {
        2
    } else if code < 0x10000 {
        3
    } else {
        4
    }
}

/// `String::push` appends one character to the string.
pub assume_specification[ std::string::String::push ](s: &mut std::string::String, c: char)
    ensures
        final(s)@ == old(s)@.push(c),
;

/// A text with a cursor in it. The text never changes; `state` moves forward
/// as characters are read and can be set back to any earlier snapshot.
/// `notices` collects advisory messages and is never rolled back.
pub struct Reader {
    pub buffer: Vec<char>,
    pub state: ReaderState,
    pub notices: Vec<Notice>,
}

impl Reader {
    /// The whole text.
    pub open spec fn input(&self) -> Seq<char> {
        self.buffer@
    }

    /// The state lies inside the text, with room for the byte offset, the
    /// line and the column.
    pub open spec fn wf(&self) -> bool {
        self.state.fits(self.buffer@)
    }

    /// Only the state differs between `before` and `self`.
    pub open spec fn moved_from(&self, before: Reader) -> bool {
        &&& self.wf()
        &&& self.buffer@ == before.buffer@
        &&& self.notices@ =~= before.notices@
    }

    /// `self` is what `before` becomes when a rule with outcome `o` runs on
    /// it and returns `r`: same text, the outcome's state, which does not lie
    /// before the state of `before` and is that state if the rule failed
    /// recoverably, the outcome's notices appended, and `r` is the outcome's
    /// result.
    pub open spec fn ran<T: DeepView>(&self, before: Reader, r: Result<T, Error>, o: Outcome<T::V>) -> bool {
        &&& self.wf()
        &&& self.buffer@ == before.buffer@
        &&& self.state == o.state
        &&& before.state.index <= self.state.index
        &&& before.state.pos.le(self.state.pos)
        &&& r is Err && r->Err_0.recoverable ==> self.state == before.state
        &&& self.notices@ =~= before.notices@ + o.notices
        &&& match (r, o.result) {
            (Ok(v), Ok(w)) => v.deep_view() =~~= w,
            (Err(e), Err(f)) => e.deep_view() =~~= f,
            _ => false,
        }
    }

    /// A reader at the start of `s`, at line 1, column 1.
    pub fn new(s: &str) -> (r: Reader)
        requires
            4 * s@.len() < usize::MAX,
        ensures
            r.wf(),
            r.input() == s@,
            r.state == (ReaderState { cursor: 0, index: 0, pos: Pos { line: 1, column: 1 } }),
            r.notices@.len() == 0,
    {
        Reader::new_at(s, Pos { line: 1, column: 1 })
    }

    /// A reader at the start of `s`, at line 1, column 1, unless `s` is too
    /// long for a reader: `None` exactly when four times its number of
    /// characters does not fit in `usize`.
    pub fn try_new(s: &str) -> (r: Option<Reader>)
        ensures
            r is Some <==> 4 * s@.len() < usize::MAX,
            r is Some ==> r->Some_0.wf() && r->Some_0.input() == s@ && r->Some_0.state == (ReaderState {
                cursor: 0,
                index: 0,
                pos: Pos { line: 1, column: 1 },
            }) && r->Some_0.notices@.len() == 0,
    {
        if s.unicode_len() <= (usize::MAX - 1) / 4 {
            Some(Reader::new(s))
        } else {
            None
        }
    }

    /// A reader at the start of `s`, which stands at `pos` in a larger text.
    pub fn new_at(s: &str, pos: Pos) -> (r: Reader)
        requires
            4 * s@.len() <= usize::MAX,
            pos.line + s@.len() <= usize::MAX,
            pos.column + s@.len() <= usize::MAX,
        ensures
            r.wf(),
            r.input() == s@,
            r.state == (ReaderState { cursor: 0, index: 0, pos }),
            r.notices@.len() == 0,
    {
        let mut buffer: Vec<char> = Vec::new();
        for c in it: s.chars()
            invariant
                buffer@ == it.seq().take(it.index() as int),
                it.seq() == s@,
        {
            buffer.push(c);
        }
        Reader { buffer, state: ReaderState { cursor: 0, index: 0, pos }, notices: Vec::new() }
    }

    /// Nothing is left to read.
    pub fn is_eof(&self) -> (b: bool)
        ensures
            b == (self.state.index >= self.buffer@.len()),
    {
        self.state.index >= self.buffer.len()
    }

    /// The next character, without moving.
    pub fn peek(&self) -> (r: Option<char>)
        ensures
            r == if self.state.index < self.input().len() {
                Some(self.input()[self.state.index as int])
            } else {
                None
            },
    {
        if self.state.index < self.buffer.len() {
            Some(self.buffer[self.state.index])
        } else {
            None
        }
    }

    /// Reads the next character and moves past it; at the end of the text,
    /// `None` and nothing moves.
    pub fn read(&mut self) -> (r: Option<char>)
        requires
            old(self).wf(),
        ensures
            final(self).moved_from(*old(self)),
            old(self).state.index <= final(self).state.index,
            old(self).state.pos.le(final(self).state.pos),
            old(self).state.index < old(self).input().len() ==> r == Some(
                old(self).input()[old(self).state.index as int],
            ) && final(self).state == old(self).state.step(old(self).input()[old(self).state.index as int]),
            old(self).state.index >= old(self).input().len() ==> r.is_none() && final(self).state
                == old(self).state,
    {
        if self.state.index < self.buffer.len() {
            let c = self.buffer[self.state.index];
            self.state.cursor = self.state.cursor + utf8_width(c);
            self.state.index = self.state.index + 1;
            if c == '\n' {
                self.state.pos.line = self.state.pos.line + 1;
                self.state.pos.column = 1;
            } else {
                self.state.pos.column = self.state.pos.column + 1;
            }
            Some(c)
        } else {
            None
        }
    }

    /// Reads for as long as `predicate` holds of the next character, and
    /// returns what was read: the longest run of accepted characters.
    pub fn read_while<F: Fn(&char) -> bool>(&mut self, predicate: F) -> (s: String)
        requires
            old(self).wf(),
            forall|c: char| call_requires(predicate, (&c,)),
        ensures
            final(self).moved_from(*old(self)),
            old(self).state.index <= final(self).state.index,
            old(self).state.pos.le(final(self).state.pos),
            final(self).state == old(self).state.walk(old(self).input(), s@.len()),
            final(self).state.index == old(self).state.index + s@.len(),
            s@ == old(self).input().subrange(
                old(self).state.index as int,
                old(self).state.index + s@.len(),
            ),
            forall|i: int|
                0 <= i < s@.len() ==> call_ensures(predicate, (&#[trigger] s@[i],), true),
            old(self).state.index + s@.len() < old(self).input().len() ==> call_ensures(
                predicate,
                (&old(self).input()[old(self).state.index + s@.len()],),
                false,
            ),
    {
        let mut s = String::new();
        let ghost input = self.buffer@;
        let ghost start = self.state;
        loop
            invariant
                self.moved_from(*old(self)),
                old(self).state.index <= self.state.index,
                old(self).state.pos.le(self.state.pos),
                input == old(self).input(),
                start == old(self).state,
                start.fits(input),
                start.index + s@.len() <= input.len(),
                self.state == start.walk(input, s@.len()),
                self.state.index == start.index + s@.len(),
                s@ == input.subrange(start.index as int, start.index + s@.len()),
                forall|c: char| call_requires(predicate, (&c,)),
                forall|i: int|
                    0 <= i < s@.len() ==> call_ensures(predicate, (&#[trigger] s@[i],), true),
            ensures
                start.index + s@.len() < input.len() ==> call_ensures(
                    predicate,
                    (&input[start.index + s@.len()],),
                    false,
                ),
            decreases input.len() - self.state.index,
        {
            proof {
                lemma_walk_fits(start, input, s@.len());
            }
            match self.peek() {
                None => {
                    break ;
                },
                Some(c) => {
                    if !predicate(&c) {
                        break ;
                    }
                    self.read();
                    s.push(c);
                    assert(s@ =~= input.subrange(start.index as int, start.index + s@.len()));
                },
            }
        }
        s
    }

    /// The text between an earlier state and the current one, as written.
    /// Empty if `from` does not lie before the cursor.
    pub fn text_since(&self, from: ReaderState) -> (s: String)
        requires
            self.wf(),
        ensures
            s@ == if from.index <= self.state.index {
                self.input().subrange(from.index as int, self.state.index as int)
            } else {
                Seq::<char>::empty()
            },
    {
        let mut s = String::new();
        let mut i = from.index;
        while i < self.state.index
            invariant
                self.wf(),
                from.index <= i,
                from.index <= self.state.index ==> i <= self.state.index,
                from.index > self.state.index ==> s@.len() == 0,
                i <= self.state.index ==> s@ == self.input().subrange(from.index as int, i as int),
            decreases self.state.index - i,
        {
            s.push(self.buffer[i]);
            i = i + 1;
            assert(s@ =~= self.input().subrange(from.index as int, i as int));
        }
        assert(s@.len() == 0 ==> s@ =~= Seq::<char>::empty());
        s
    }

    /// The current state, to come back to.
    pub fn snapshot(&self) -> (st: ReaderState)
        ensures
            st == self.state,
    {
        self.state
    }

    /// Puts the reader back to `state`, whatever was read since.
    pub fn restore(&mut self, state: ReaderState)
        requires
            state.fits(old(self).input()),
        ensures
            final(self).moved_from(*old(self)),
            final(self).state == state,
    {
        self.state = state;
    }
}

} // verus!
