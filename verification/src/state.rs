//! The editing state behind an interactive front end: the text typed so
//! far, a cursor inside it, and the value of the last input that evaluated.

use vstd::prelude::*;

use crate::ast::evaluate;
use crate::ast::spec_evaluate;

verus! {

/// What the state's cached result becomes after its text changed to `s`: the
/// new value when `s` evaluates, else whatever was shown before. A keystroke
/// that leaves the expression broken keeps the previous result on screen.
pub open spec fn refreshed(s: Seq<char>, prev: Option<i64>) -> Option<i64> {
    match spec_evaluate(s) {
        Ok(v) => Some(v),
        Err(_) => prev,
    }
}

/// The state of the line editor: an expression buffer, a cursor position
/// inside it, and the result of the last successful evaluation.
pub struct State {
    expr: Vec<char>,
    cursor: usize,
    last_result: Option<i64>,
}

impl State {
    /// The buffer's text.
    pub closed spec fn text(&self) -> Seq<char> {
        self.expr@
    }

    /// The cursor, as a character offset into the text.
    pub closed spec fn pos(&self) -> nat {
        self.cursor as nat
    }

    /// The cached result of the last successful evaluation.
    pub closed spec fn result(&self) -> Option<i64> {
        self.last_result
    }

    /// The cursor never leaves the text: every method keeps it between the
    /// start and the end of the buffer.
    pub open spec fn wf(&self) -> bool {
        self.pos() <= self.text().len()
    }

    pub fn new() -> (s: State)
        ensures
            s.wf(),
            s.text() == Seq::<char>::empty(),
            s.pos() == 0,
            s.result() is None,
    {
        State { expr: Vec::new(), cursor: 0, last_result: None }
    }

    /// Inserts one character at the cursor, advances past it, and
    /// re-evaluates the buffer.
    pub fn input(&mut self, c: char)
        requires
            old(self).wf(),
        ensures
            final(self).wf(),
            final(self).text() == old(self).text().insert(old(self).pos() as int, c),
            final(self).pos() == old(self).pos() + 1,
            final(self).result() == refreshed(final(self).text(), old(self).result()),
    {
        self.expr.insert(self.cursor, c);
        let grown: usize = self.expr.len();
        proof {
            assert(self.cursor < grown);
        }
        self.cursor += 1;
        self.update();
    }

    /// Moves the cursor one character left, if it is not at the start.
    pub fn cursor_left(&mut self)
        requires
            old(self).wf(),
        ensures
            final(self).wf(),
            final(self).text() == old(self).text(),
            final(self).result() == old(self).result(),
            final(self).pos() == if old(self).pos() > 0 {
                (old(self).pos() - 1) as nat
            } else {
                0nat
            },
    {
        if self.cursor > 0 {
            self.cursor -= 1;
        }
    }

    /// Moves the cursor one character right, if it is not at the end.
    pub fn cursor_right(&mut self)
        requires
            old(self).wf(),
        ensures
            final(self).wf(),
            final(self).text() == old(self).text(),
            final(self).result() == old(self).result(),
            final(self).pos() == if old(self).pos() < old(self).text().len() {
                old(self).pos() + 1
            } else {
                old(self).pos()
            },
    {
        if self.cursor < self.expr.len() {
            self.cursor += 1;
        }
    }

    /// Moves the cursor to the start of the text.
    pub fn cursor_first(&mut self)
        requires
            old(self).wf(),
        ensures
            final(self).wf(),
            final(self).text() == old(self).text(),
            final(self).result() == old(self).result(),
            final(self).pos() == 0,
    {
        self.cursor = 0;
    }

    /// Moves the cursor to the end of the text.
    pub fn cursor_last(&mut self)
        requires
            old(self).wf(),
        ensures
            final(self).wf(),
            final(self).text() == old(self).text(),
            final(self).result() == old(self).result(),
            final(self).pos() == old(self).text().len(),
    {
        self.cursor = self.expr.len();
    }

    /// Removes the character before the cursor, if any, and re-evaluates.
    pub fn backspace(&mut self)
        requires
            old(self).wf(),
        ensures
            final(self).wf(),
            old(self).pos() == 0 ==> *final(self) == *old(self),
            old(self).pos() > 0 ==> {
                &&& final(self).text() == old(self).text().remove(old(self).pos() - 1)
                &&& final(self).pos() == old(self).pos() - 1
                &&& final(self).result() == refreshed(final(self).text(), old(self).result())
            },
    {
        if self.cursor > 0 {
            self.expr.remove(self.cursor - 1);
            self.cursor -= 1;
            self.update();
        }
    }

    /// Removes the character under the cursor, if any, and re-evaluates.
    pub fn delete(&mut self)
        requires
            old(self).wf(),
        ensures
            final(self).wf(),
            final(self).pos() == old(self).pos(),
            old(self).pos() >= old(self).text().len() ==> *final(self) == *old(self),
            old(self).pos() < old(self).text().len() ==> {
                &&& final(self).text() == old(self).text().remove(old(self).pos() as int)
                &&& final(self).result() == refreshed(final(self).text(), old(self).result())
            },
    {
        if self.cursor < self.expr.len() {
            self.expr.remove(self.cursor);
            self.update();
        }
    }

    /// Empties the buffer and rewinds the cursor. The cached result stays:
    /// clearing the line is not an evaluation.
    pub fn clear(&mut self)
        requires
            old(self).wf(),
        ensures
            final(self).wf(),
            final(self).text() == Seq::<char>::empty(),
            final(self).pos() == 0,
            final(self).result() == old(self).result(),
    {
        self.expr.clear();
        self.cursor = 0;
    }

    /// The buffer's text as an owned string.
    pub fn expr(&self) -> (r: String)
        ensures
            r@ == self.text(),
    {
        let mut ret = String::new();
        let mut i: usize = 0;
        while i < self.expr.len()
            invariant
                i <= self.expr.len(),
                ret@ == self.expr@.take(i as int),
            decreases self.expr.len() - i,
        {
            crate::push_char(&mut ret, self.expr[i]);
            proof {
                assert(self.expr@.take(i + 1).drop_last() =~= self.expr@.take(i as int));
            }
            i += 1;
        }
        proof {
            assert(self.expr@.take(self.expr.len() as int) =~= self.expr@);
        }
        ret
    }

    /// The cursor position.
    pub fn cursor(&self) -> (r: usize)
        ensures
            r == self.pos(),
    {
        self.cursor
    }

    /// The result of the last input that evaluated, if there was one.
    pub fn last_result(&self) -> (r: Option<i64>)
        ensures
            r == self.result(),
    {
        self.last_result
    }

    /// Re-evaluates the buffer and caches the value if evaluation succeeds.
    fn update(&mut self)
        ensures
            final(self).expr == old(self).expr,
            final(self).cursor == old(self).cursor,
            final(self).last_result == refreshed(old(self).expr@, old(self).last_result),
    {
        let text = self.expr();
        match evaluate(text.as_str()) {
            Ok(v) => {
                self.last_result = Some(v);
            },
            Err(_) => {},
        }
    }
}

} // verus!
