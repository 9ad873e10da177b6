//! Navigator: a cursor over the ordered group sequence, driven by discrete
//! commands, with a verified renderer for the current group.
//!
//! The command source and the terminal are outside collaborators; this
//! module only decides the next state and produces the text of each frame.
use vstd::prelude::*;

use crate::decode::ParsedLine;
use crate::decode::ParsedLineV;
use crate::decode::rec_views;
use crate::decode::seq_views;
use crate::group::group_parsed_lines;
use crate::group::idx_views;
use crate::group::idxs;
use crate::group::is_grouping;
use crate::primitives::dec_int;
use crate::primitives::push_chars;
use crate::primitives::push_i32;

verus! {

/// The items joined by `sep`, in order.
pub open spec fn join_sp(items: Seq<Seq<char>>, sep: Seq<char>) -> Seq<char>
    decreases items.len(),
{
    if items.len() == 0 {
        Seq::empty()
    } else if items.len() == 1 {
        items[0]
    } else {
        join_sp(items.drop_last(), sep) + sep + items.last()
    }
}

/// One rendered record line: `id class_name` for a parentless record, or an
/// indented `id class_name state` for one with a parent; both followed by
/// the function name and the comma-joined arguments.
pub open spec fn render_line_sp(r: ParsedLineV) -> Seq<char> {
    (if r.parent is Some {
        seq![' ', ' ', ' ', ' ', ' '] + dec_int(r.id) + seq![' '] + r.class_name + seq![' ']
            + join_sp(r.state, seq![' '])
    } else {
        dec_int(r.id) + seq![' '] + r.class_name
    }) + seq![' '] + r.function_name + seq![' '] + join_sp(r.args, seq![',', ' ']) + seq![
        '\n',
        '\r',
    ]
}

/// The rendered lines of the records at the positions in `g`, in order.
pub open spec fn render_lines_sp(recs: Seq<ParsedLineV>, g: Seq<int>) -> Seq<char>
    decreases g.len(),
{
    if g.len() == 0 {
        Seq::empty()
    } else {
        render_lines_sp(recs, g.drop_last()) + render_line_sp(recs[g.last()])
    }
}

/// One rendered frame: the first record's space-joined state as a header,
/// then every record of the group in order.
pub open spec fn render_group_sp(recs: Seq<ParsedLineV>, g: Seq<int>) -> Seq<char> {
    join_sp(recs[g[0]].state, seq![' ']) + seq!['\n', '\r'] + render_lines_sp(recs, g)
}

/// The fixed message rendered when there is nothing to browse.
pub open spec fn no_data_message() -> Seq<char> {
    seq!['n', 'o', ' ', 'd', 'a', 't', 'a', '\n', '\r']
}

fn push_join(out: &mut Vec<char>, items: &Vec<Vec<char>>, sep: &Vec<char>)
    ensures
        final(out)@ == old(out)@ + join_sp(seq_views(items@), sep@),
{
    let ghost views = seq_views(items@);
    let mut k: usize = 0;
    while k < items.len()
        invariant
            k <= items@.len(),
            views == seq_views(items@),
            out@ == old(out)@ + join_sp(views.subrange(0, k as int), sep@),
        decreases items@.len() - k,
    {
        if k > 0 {
            push_chars(out, sep);
        }
        push_chars(out, &items[k]);
        k += 1;
        proof {
            let prefix = views.subrange(0, k as int);
            assert(prefix.drop_last() =~= views.subrange(0, k - 1));
            assert(prefix.last() == items@[k - 1]@);
            if k == 1 {
                assert(join_sp(prefix, sep@) == prefix[0]);
                assert(old(out)@ + join_sp(views.subrange(0, 0), sep@) =~= old(out)@);
                assert(out@ =~= old(out)@ + join_sp(prefix, sep@));
            } else {
                assert(join_sp(prefix, sep@) == join_sp(prefix.drop_last(), sep@) + sep@
                    + items@[k - 1]@);
                assert(out@ =~= old(out)@ + join_sp(prefix, sep@));
            }
        }
    }
    proof {
        assert(views.subrange(0, views.len() as int) =~= views);
    }
}

fn push_line(out: &mut Vec<char>, rec: &ParsedLine)
    ensures
        final(out)@ == old(out)@ + render_line_sp(rec@),
{
    let space: Vec<char> = vec![' '];
    let comma: Vec<char> = vec![',', ' '];
    proof {
        assert(space@ =~= seq![' ']);
        assert(comma@ =~= seq![',', ' ']);
    }
    match rec.parent {
        Some(_) => {
            out.push(' ');
            out.push(' ');
            out.push(' ');
            out.push(' ');
            out.push(' ');
            proof {
                assert(out@ =~= old(out)@ + seq![' ', ' ', ' ', ' ', ' ']);
            }
            push_i32(out, rec.id);
            out.push(' ');
            push_chars(out, &rec.class_name);
            out.push(' ');
            push_join(out, &rec.state, &space);
        },
        None => {
            push_i32(out, rec.id);
            out.push(' ');
            push_chars(out, &rec.class_name);
        },
    }
    out.push(' ');
    push_chars(out, &rec.function_name);
    out.push(' ');
    push_join(out, &rec.args, &comma);
    out.push('\n');
    out.push('\r');
    proof {
        assert(out@ =~= old(out)@ + render_line_sp(rec@));
    }
}

/// Renders one group: the header line, then every record of the group.
pub fn render_group(plines: &Vec<ParsedLine>, group: &Vec<usize>) -> (out: Vec<char>)
    requires
        group@.len() > 0,
        forall|m: int| 0 <= m < group@.len() ==> group@[m] < plines@.len(),
    ensures
        out@ == render_group_sp(rec_views(plines@), idxs(group@)),
{
    let ghost recs = rec_views(plines@);
    let ghost g = idxs(group@);
    let space: Vec<char> = vec![' '];
    proof {
        assert(space@ =~= seq![' ']);
    }
    let mut out: Vec<char> = Vec::new();
    let first = group[0];
    push_join(&mut out, &plines[first].state, &space);
    out.push('\n');
    out.push('\r');
    let ghost header = join_sp(recs[g[0]].state, seq![' ']) + seq!['\n', '\r'];
    proof {
        assert(out@ =~= header);
        assert(out@ =~= header + render_lines_sp(recs, g.subrange(0, 0)));
    }
    let mut k: usize = 0;
    while k < group.len()
        invariant
            k <= group@.len(),
            recs == rec_views(plines@),
            g == idxs(group@),
            forall|m: int| 0 <= m < group@.len() ==> group@[m] < plines@.len(),
            header == join_sp(recs[g[0]].state, seq![' ']) + seq!['\n', '\r'],
            out@ == header + render_lines_sp(recs, g.subrange(0, k as int)),
        decreases group@.len() - k,
    {
        let idx = group[k];
        push_line(&mut out, &plines[idx]);
        k += 1;
        proof {
            let prefix = g.subrange(0, k as int);
            assert(prefix.drop_last() =~= g.subrange(0, k - 1));
            assert(prefix.last() == group@[k - 1] as int);
            assert(out@ =~= header + render_lines_sp(recs, prefix));
        }
    }
    proof {
        assert(g.subrange(0, g.len() as int) =~= g);
    }
    out
}

/// A discrete navigation command, handed in by the outside command source.
#[derive(Clone, Copy, Debug, PartialEq, Eq, Structural)]
pub enum Command {
    Prev,
    Next,
    Quit,
    Other,
}

/// The navigator's state: browsing at a cursor, or done.
#[derive(Clone, Copy, Debug, PartialEq, Eq, Structural)]
pub enum NavMode {
    Active(usize),
    Terminated,
}

/// Whether a cursor stays inside the group sequence.
pub open spec fn mode_in_range(m: NavMode, len: nat) -> bool {
    match m {
        NavMode::Active(c) => c < len,
        NavMode::Terminated => true,
    }
}

/// The transition function over `len` groups: `Prev` and `Next` move the
/// cursor clamped to `[0, len-1]`, `Quit` terminates, anything else leaves
/// the state unchanged; a terminated session stays terminated.
pub open spec fn nav_step_mode(m: NavMode, len: nat, cmd: Command) -> NavMode {
    match m {
        NavMode::Terminated => NavMode::Terminated,
        NavMode::Active(c) => match cmd {
            Command::Quit => NavMode::Terminated,
            Command::Prev => NavMode::Active(if c == 0 { 0 } else { (c - 1) as usize }),
            Command::Next => NavMode::Active(
                if c + 1 < len {
                    (c + 1) as usize
                } else {
                    c
                },
            ),
            Command::Other => NavMode::Active(c),
        },
    }
}

/// The mode after a whole command sequence, first command first.
pub open spec fn run_commands(m: NavMode, len: nat, cmds: Seq<Command>) -> NavMode
    decreases cmds.len(),
{
    if cmds.len() == 0 {
        m
    } else {
        nav_step_mode(run_commands(m, len, cmds.drop_last()), len, cmds.last())
    }
}

/// The cursor never leaves `[0, len-1]`: from any in-range state, any
/// sequence of commands — including repeated `Prev` at 0 and repeated
/// `Next` at the last index — ends in an in-range state.
pub proof fn lemma_cursor_in_range(m: NavMode, len: nat, cmds: Seq<Command>)
    requires
        mode_in_range(m, len),
    ensures
        mode_in_range(run_commands(m, len, cmds), len),
    decreases cmds.len(),
{
    if cmds.len() > 0 {
        lemma_cursor_in_range(m, len, cmds.drop_last());
    }
}

/// Cursor over the immutable group sequence, created at session start and
/// mutated only by explicit commands.
pub struct Navigator {
    pub records: Vec<ParsedLine>,
    pub groups: Vec<Vec<usize>>,
    pub mode: NavMode,
}

impl Navigator {
    /// The groups are non-empty, their positions point into the record
    /// sequence, and an active cursor points at a group.
    pub open spec fn wf(self) -> bool {
        &&& forall|k: int| 0 <= k < self.groups@.len() ==> (#[trigger] self.groups@[k]@).len() > 0
        &&& forall|k: int, m: int|
            0 <= k < self.groups@.len() && 0 <= m < self.groups@[k]@.len() ==> (
            #[trigger] self.groups@[k]@[m]) < self.records@.len()
        &&& mode_in_range(self.mode, self.groups@.len() as nat)
    }

    /// Starts a session over the decoded records: groups them and places
    /// the cursor on the first group, or terminates at once when there is
    /// nothing to browse.
    pub fn new(records: Vec<ParsedLine>) -> (nav: Navigator)
        ensures
            nav.wf(),
            nav.records@ == records@,
            is_grouping(rec_views(records@), idx_views(nav.groups@)),
            nav.groups@.len() == 0 ==> nav.mode == NavMode::Terminated,
            nav.groups@.len() > 0 ==> nav.mode == NavMode::Active(0usize),
    {
        let groups = group_parsed_lines(&records);
        proof {
            let gs = idx_views(groups@);
            assert forall|k: int| 0 <= k < groups@.len() implies (#[trigger] groups@[k]@).len()
                > 0 by {
                assert(gs[k].len() > 0);
            }
        }
        let mode = if groups.len() == 0 {
            NavMode::Terminated
        } else {
            NavMode::Active(0)
        };
        Navigator { records, groups, mode }
    }

    /// The frame rendered on session start: the first group, or the fixed
    /// "no data" message when the group sequence is empty (the session is
    /// then already terminated and consumes no commands).
    pub fn initial_frame(&self) -> (frame: Vec<char>)
        requires
            self.wf(),
        ensures
            self.groups@.len() == 0 ==> frame@ == no_data_message(),
            self.groups@.len() > 0 ==> frame@ == render_group_sp(
                rec_views(self.records@),
                idx_views(self.groups@)[0],
            ),
    {
        if self.groups.len() == 0 {
            let mut out: Vec<char> = Vec::new();
            out.push('n');
            out.push('o');
            out.push(' ');
            out.push('d');
            out.push('a');
            out.push('t');
            out.push('a');
            out.push('\n');
            out.push('\r');
            proof {
                assert(out@ =~= no_data_message());
            }
            out
        } else {
            render_group(&self.records, &self.groups[0])
        }
    }

    /// Renders the group under cursor `c`.
    #[verifier::rlimit(100)]
    fn frame_at(&self, c: usize) -> (frame: Vec<char>)
        requires
            self.wf(),
            c < self.groups@.len(),
        ensures
            frame@ == render_group_sp(rec_views(self.records@), idx_views(self.groups@)[c as int]),
    {
        render_group(&self.records, &self.groups[c])
    }

    /// Applies one command: moves the clamped cursor, terminates on `Quit`,
    /// ignores anything else. Every transition into an active state renders
    /// the group at the new cursor; termination renders nothing.
    #[verifier::rlimit(50)]
    pub fn step(&mut self, cmd: Command) -> (frame: Option<Vec<char>>)
        requires
            old(self).wf(),
        ensures
            final(self).wf(),
            final(self).records@ == old(self).records@,
            final(self).groups@ == old(self).groups@,
            final(self).mode == nav_step_mode(old(self).mode, old(self).groups@.len() as nat, cmd),
            match final(self).mode {
                NavMode::Active(c) => frame matches Some(f) && f@ == render_group_sp(
                    rec_views(final(self).records@),
                    idx_views(final(self).groups@)[c as int],
                ),
                NavMode::Terminated => frame is None,
            },
    {
        match self.mode {
            NavMode::Terminated => None,
            NavMode::Active(c) => {
                match cmd {
                    Command::Quit => {
                        self.mode = NavMode::Terminated;
                        None
                    },
                    Command::Prev => {
                        let nc = if c == 0 {
                            0
                        } else {
                            c - 1
                        };
                        self.mode = NavMode::Active(nc);
                        Some(self.frame_at(nc))
                    },
                    Command::Next => {
                        let len = self.groups.len();
                        let nc = if c + 1 < len {
                            c + 1
                        } else {
                            c
                        };
                        self.mode = NavMode::Active(nc);
                        Some(self.frame_at(nc))
                    },
                    Command::Other => {
                        Some(self.frame_at(c))
                    },
                }
            },
        }
    }

    /// Whether the session is over; a terminated navigator reads no
    /// further commands.
    pub fn is_terminated(&self) -> (r: bool)
        ensures
            r == (self.mode == NavMode::Terminated),
    {
        match self.mode {
            NavMode::Terminated => true,
            NavMode::Active(_) => false,
        }
    }
}

} // verus!
