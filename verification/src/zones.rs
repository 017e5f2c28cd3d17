//! Profiler zones that stay open across suspension points.
//!
//! A zone opens when its span is created and closes when the span is closed.
//! Zones have to close in the reverse order of opening, so they are kept on a
//! stack.
use vstd::prelude::*;

verus! {

/// What to do with a zone.
#[derive(Clone, Copy, Debug)]
pub enum Cmd {
    Open { id: u64, name: &'static str, file: &'static str, line: u32 },
    Close { id: u64 },
}

/// Turns the life of spans into commands for zones.
pub struct AsyncZoneLayer;

impl AsyncZoneLayer {
    /// A span was created. Without a known place in the source it is shown at
    /// an unknown one.
    pub fn on_new_span(&self, id: u64, name: &'static str, file: Option<&'static str>, line: Option<u32>) -> (cmd: Cmd)
        ensures
            cmd == (Cmd::Open {
                id,
                name,
                file: match file {
                    Some(file) => file,
                    None => "<unknown>",
                },
                line: match line {
                    Some(line) => line,
                    None => 0,
                },
            }),
    {
        Cmd::Open {
            id,
            name,
            file: match file {
                Some(file) => file,
                None => "<unknown>",
            },
            line: match line {
                Some(line) => line,
                None => 0,
            },
        }
    }

    /// A span was closed.
    pub fn on_close(&self, id: u64) -> (cmd: Cmd)
        ensures
            cmd == (Cmd::Close { id }),
    {
        Cmd::Close { id }
    }
}

/// The stack without the innermost zone of the span and everything that was
/// opened after it. A span without a zone changes nothing.
pub open spec fn closed(open: Seq<u64>, id: u64) -> Seq<u64>
    decreases open.len(),
{
    if !open.contains(id) {
        open
    } else if open.last() == id {
        open.drop_last()
    } else {
        closed(open.drop_last(), id)
    }
}

/// The stack after a command. Nothing is opened while the profiler is off.
pub open spec fn after(open: Seq<u64>, cmd: Cmd, profiling: bool) -> Seq<u64> {
    match cmd {
        Cmd::Open { id, .. } => if profiling {
            open.push(id)
        } else {
            open
        },
        Cmd::Close { id } => closed(open, id),
    }
}

/// The open zones, innermost last.
pub struct ZoneStack {
    open: Vec<u64>,
}

impl View for ZoneStack {
    type V = Seq<u64>;

    closed spec fn view(&self) -> Seq<u64> {
        self.open@
    }
}

proof fn lemma_closed(open: Seq<u64>, id: u64, pos: int)
    requires
        0 <= pos < open.len(),
        open[pos] == id,
        forall|k: int| pos < k < open.len() ==> open[k] != id,
    ensures
        closed(open, id) == open.take(pos),
    decreases open.len(),
{
    assert(open.contains(id));
    if pos < open.len() - 1 {
        lemma_closed(open.drop_last(), id, pos);
        assert(open.drop_last().take(pos) =~= open.take(pos));
    } else {
        assert(open.drop_last() =~= open.take(pos));
    }
}

impl ZoneStack {
    /// No open zones.
    pub fn new() -> (stack: Self)
        ensures
            stack@ == Seq::<u64>::empty(),
    {
        ZoneStack { open: Vec::new() }
    }

    /// Carries out a command. Returns how many zones are open afterwards.
    pub fn apply(&mut self, cmd: Cmd, profiling: bool) -> (count: usize)
        ensures
            final(self)@ == after(old(self)@, cmd, profiling),
            count == final(self)@.len(),
    {
        match cmd {
            Cmd::Open { id, .. } => {
                if profiling {
                    self.open.push(id);
                }
            },
            Cmd::Close { id } => {
                let mut pos: usize = self.open.len();
                while pos > 0 && self.open[pos - 1] != id
                    invariant
                        pos <= self.open@.len(),
                        forall|k: int| pos <= k < self.open@.len() ==> self.open@[k] != id,
                    decreases pos,
                {
                    pos = pos - 1;
                }
                if pos > 0 {
                    proof {
                        lemma_closed(self.open@, id, pos - 1);
                        assert(self.open@.subrange(0, pos - 1) =~= self.open@.take(pos - 1));
                    }
                    self.open.truncate(pos - 1);
                }
            },
        }
        self.open.len()
    }
}

/// Closing a span closes its zone and every zone that was opened after it,
/// and leaves the zones that were opened before it.
pub proof fn lemma_closing_closes_inner_zones(outer: Seq<u64>, id: u64, inner: Seq<u64>)
    requires
        !inner.contains(id),
    ensures
        closed(outer.push(id) + inner, id) == outer,
{
    let open = outer.push(id) + inner;
    assert forall|k: int| outer.len() < k < open.len() implies open[k] != id by {
        assert(open[k] == inner[k - outer.len() - 1]);
    }
    lemma_closed(open, id, outer.len() as int);
    assert(open.take(outer.len() as int) =~= outer);
}

/// Spans that are closed in the reverse order of creation leave no zone open.
pub proof fn lemma_nested_spans_balance(outer: Seq<u64>, cmd: Cmd, id: u64)
    requires
        cmd matches Cmd::Open { id: opened, .. } && opened == id,
    ensures
        after(after(outer, cmd, true), Cmd::Close { id }, true) == outer,
{
    lemma_closing_closes_inner_zones(outer, id, Seq::empty());
    assert(outer.push(id) + Seq::<u64>::empty() =~= outer.push(id));
}

/// While the profiler is off nothing is opened, and a span without a zone closes
/// nothing. While it is on, a new zone is the innermost.
pub proof fn lemma_only_known_zones_close(open: Seq<u64>, cmd: Cmd, id: u64)
    ensures
        cmd matches Cmd::Open { id: opened, .. } ==> after(open, cmd, false) == open && after(open, cmd, true)
            == open + seq![opened],
        !open.contains(id) ==> after(open, Cmd::Close { id }, true) == open && after(open, Cmd::Close { id }, false)
            == open,
        after(open, Cmd::Close { id }, true) == after(open, Cmd::Close { id }, false),
{
    if let Cmd::Open { id: opened, .. } = cmd {
        assert(open.push(opened) =~= open + seq![opened]);
    }
}

} // verus!
