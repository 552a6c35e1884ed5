//! The resolution engine: it owns the buffer of keys typed so far and, for
//! each input event, decides whether the session continues, resolves to one
//! binding's output, or is cancelled.

use vstd::prelude::*;

use crate::bindings::{copy_chars, exact_spec, reachable_spec, BindingModel, BindingTable};

verus! {

/// One input event, as the terminal collaborator reports it: a printable
/// character, the backspace key, the cancel key, or anything else (ignored).
#[derive(Debug, Clone, Copy, PartialEq, Eq)]
pub enum InputEvent {
    Key(char),
    Backspace,
    Cancel,
    Other,
}

/// What one engine step decided: keep going, emit this output and stop, or
/// stop with nothing to emit.
#[derive(Debug, PartialEq, Eq)]
pub enum ResolutionOutcome {
    Continue,
    Resolved(Vec<char>),
    Cancelled,
}

/// The mathematical image of a `ResolutionOutcome`.
pub enum OutcomeModel {
    Continue,
    Resolved(Seq<char>),
    Cancelled,
}

impl View for ResolutionOutcome {
    type V = OutcomeModel;

    open spec fn view(&self) -> OutcomeModel {
        match self {
            ResolutionOutcome::Continue => OutcomeModel::Continue,
            ResolutionOutcome::Resolved(out) => OutcomeModel::Resolved(out@),
            ResolutionOutcome::Cancelled => OutcomeModel::Cancelled,
        }
    }
}

/// The decision taken after a character lands in the buffer `buf`:
/// if some binding's key sequence equals `buf`, the first such binding
/// resolves (pre-existing duplicates tie-break by table order); otherwise, if
/// exactly one binding remains reachable, it resolves even though `buf` may be
/// a strict prefix of its key sequence (commit on uniqueness); otherwise the
/// session continues, also when nothing at all is reachable (a dead end stays
/// visible until a deletion recovers it).
pub open spec fn decide_spec(t: Seq<BindingModel>, buf: Seq<char>) -> OutcomeModel {
    let exact = exact_spec(t, buf);
    let reach = reachable_spec(t, buf);
    if exact.len() > 0 {
        OutcomeModel::Resolved(exact[0].output)
    } else if reach.len() == 1 {
        OutcomeModel::Resolved(reach[0].output)
    } else {
        OutcomeModel::Continue
    }
}

/// One step of the engine: the buffer after the event, and the outcome.
/// A character is appended and then judged by `decide_spec`; backspace drops
/// the last character when there is one and never ends the session; the
/// cancel key ends the session at once, whatever the buffer holds; any other
/// event changes nothing.
pub open spec fn step_spec(t: Seq<BindingModel>, buf: Seq<char>, ev: InputEvent) -> (Seq<
    char,
>, OutcomeModel) {
    match ev {
        InputEvent::Key(c) => (buf.push(c), decide_spec(t, buf.push(c))),
        InputEvent::Backspace => (
            if buf.len() > 0 {
                buf.drop_last()
            } else {
                buf
            },
            OutcomeModel::Continue,
        ),
        InputEvent::Cancel => (buf, OutcomeModel::Cancelled),
        InputEvent::Other => (buf, OutcomeModel::Continue),
    }
}

/// A dead end is survivable: typing a character that leaves nothing
/// reachable only continues the session, and one backspace restores the
/// buffer, and with it the reachable set, exactly as they were before.
pub proof fn lemma_dead_end_recovery(t: Seq<BindingModel>, buf: Seq<char>, c: char)
    requires
        reachable_spec(t, buf.push(c)).len() == 0,
    ensures
        decide_spec(t, buf.push(c)) == OutcomeModel::Continue,
        step_spec(t, buf.push(c), InputEvent::Backspace).0 == buf,
        reachable_spec(t, step_spec(t, buf.push(c), InputEvent::Backspace).0) == reachable_spec(
            t,
            buf,
        ),
{
    crate::bindings::lemma_exact_within_reachable(t, buf.push(c));
    assert(buf.push(c).drop_last() =~= buf);
}

/// The engine's state: the characters typed so far in the current attempt.
/// It starts empty and is never cleared behind the user's back; only
/// backspace shortens it. Resolution is only ever evaluated right after a
/// character lands, so an empty buffer never resolves on its own, even when
/// the table holds a single binding.
pub struct ResolutionEngine {
    buffer: Vec<char>,
}

impl View for ResolutionEngine {
    type V = Seq<char>;

    closed spec fn view(&self) -> Seq<char> {
        self.buffer@
    }
}

impl ResolutionEngine {
    /// A fresh engine with an empty buffer.
    pub fn new() -> (e: ResolutionEngine)
        ensures
            e@ == Seq::<char>::empty(),
    {
        let e = ResolutionEngine { buffer: Vec::new() };
        proof {
            assert(e@ =~= Seq::<char>::empty());
        }
        e
    }

    /// Read-only access to the typed buffer, for display.
    pub fn buffer(&self) -> (r: &Vec<char>)
        ensures
            r@ == self@,
    {
        &self.buffer
    }

    /// Appends `c` to the buffer and applies the decision rule.
    pub fn on_char(&mut self, table: &BindingTable, c: char) -> (out: ResolutionOutcome)
        ensures
            final(self)@ == old(self)@.push(c),
            out@ == decide_spec(table@, old(self)@.push(c)),
    {
        self.buffer.push(c);
        match table.first_exact(&self.buffer) {
            Some(b) => ResolutionOutcome::Resolved(b.output),
            None => {
                let reach = table.reachable_from(&self.buffer);
                if reach.len() == 1 {
                    proof {
                        assert(reach@.map_values(|b: crate::bindings::Binding| b@)[0]
                            == reachable_spec(table@, self.buffer@)[0]);
                    }
                    ResolutionOutcome::Resolved(copy_chars(&reach[0].output))
                } else {
                    ResolutionOutcome::Continue
                }
            },
        }
    }

    /// Removes the last typed character; with an empty buffer this is a
    /// no-op. The session always continues.
    pub fn on_backspace(&mut self) -> (out: ResolutionOutcome)
        ensures
            final(self)@ == if old(self)@.len() > 0 {
                old(self)@.drop_last()
            } else {
                old(self)@
            },
            out@ == OutcomeModel::Continue,
    {
        if self.buffer.len() > 0 {
            self.buffer.pop();
        }
        ResolutionOutcome::Continue
    }

    /// Cancels the session at once, whatever the buffer holds.
    pub fn on_cancel(&self) -> (out: ResolutionOutcome)
        ensures
            out@ == OutcomeModel::Cancelled,
    {
        ResolutionOutcome::Cancelled
    }

    /// Dispatches one input event per the engine's transition rules.
    pub fn on_event(&mut self, table: &BindingTable, ev: InputEvent) -> (out: ResolutionOutcome)
        ensures
            final(self)@ == step_spec(table@, old(self)@, ev).0,
            out@ == step_spec(table@, old(self)@, ev).1,
    {
        match ev {
            InputEvent::Key(c) => self.on_char(table, c),
            InputEvent::Backspace => self.on_backspace(),
            InputEvent::Cancel => self.on_cancel(),
            InputEvent::Other => ResolutionOutcome::Continue,
        }
    }
}

} // verus!
