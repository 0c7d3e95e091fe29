//! What is shown of a run: the text of the line-by-line view, and for the
//! view on the whole screen which package is selected, how the tabs are
//! labelled and which lines fill a pane.

use crate::workspace::package::{name_text, Package};
use crate::workspace::process::{line_views, LineView, LogLine, Process};
use crate::workspace::Workspace;
use vstd::prelude::*;
use vstd::string::StringExecFns;

verus! {

/// The time between two drawings of the view, in milliseconds.
pub const TICK_RATE_MS: u64 = 33;

/// The number of programs of a package that the view on the whole screen
/// has panes for.
pub const PANES: usize = 4;

/// The programs that were started for a workspace: those of the workspace as
/// a whole, and those of each package, by the package's position.
pub struct ProcessTable {
    pub workspace: Vec<Process>,
    pub packages: Vec<Vec<Process>>,
}

/// How the parts of the output that draw the tree are set off from the
/// output of the programs: what is written before such a part and after it.
pub struct MetaStyle {
    pub start: String,
    pub end: String,
}

/// A part of the tree, set off.
pub open spec fn meta(style: MetaStyle, text: Seq<char>) -> Seq<char> {
    style.start@ + text + style.end@
}

/// What is said of a program that has ended, or has not.
pub open spec fn status_text(finished: bool) -> Seq<char> {
    if finished {
        "finished"@
    } else {
        "running..."@
    }
}

/// The lines of a program, each behind `prefix` and a bar.
pub open spec fn lines_block(lines: Seq<LineView>, prefix: Seq<char>, style: MetaStyle) -> Seq<char>
    decreases lines.len(),
{
    if lines.len() == 0 {
        Seq::empty()
    } else {
        lines_block(lines.drop_last(), prefix, style) + meta(style, prefix + "│ "@) + lines.last().line + "\n"@
    }
}

/// The last line of a program's block, which says whether it has ended.
pub open spec fn trailer(prefix: Seq<char>, finished: bool, style: MetaStyle) -> Seq<char> {
    meta(style, prefix + "└─ "@ + status_text(finished) + "\n"@)
}

/// The block of a program of the workspace.
pub open spec fn ws_block(process: Process, style: MetaStyle) -> Seq<char> {
    "ws/"@ + process.spec_script() + "\n"@ + lines_block(process.spec_logs(), Seq::empty(), style) + trailer(
        Seq::empty(),
        process.spec_finished(),
        style,
    )
}

/// The blocks of the first `k` programs of the workspace.
pub open spec fn ws_blocks(processes: Seq<Process>, k: int, style: MetaStyle) -> Seq<char>
    decreases k,
{
    if k <= 0 {
        Seq::empty()
    } else {
        ws_blocks(processes, k - 1, style) + ws_block(processes[k - 1], style)
    }
}

/// What stands before the lines of a program of a package: nothing where
/// the workspace is one package, else the continuation of the tree.
pub open spec fn branch_prefix(monorepo: bool, last: bool) -> Seq<char> {
    if !monorepo {
        Seq::empty()
    } else if last {
        "   "@
    } else {
        "│  "@
    }
}

/// The block of a program of a package; `last` says whether it is the last
/// one of its package.
pub open spec fn pkg_process_block(process: Process, monorepo: bool, last: bool, style: MetaStyle) -> Seq<char> {
    (if monorepo {
        meta(
            style,
            if last {
                "└─ "@
            } else {
                "├─ "@
            },
        )
    } else {
        Seq::empty()
    }) + process.spec_script() + "\n"@ + lines_block(process.spec_logs(), branch_prefix(monorepo, last), style) + trailer(
        branch_prefix(monorepo, last),
        process.spec_finished(),
        style,
    )
}

/// The blocks of the first `k` programs of a package.
pub open spec fn pkg_process_blocks(processes: Seq<Process>, k: int, monorepo: bool, style: MetaStyle) -> Seq<char>
    decreases k,
{
    if k <= 0 {
        Seq::empty()
    } else {
        pkg_process_blocks(processes, k - 1, monorepo, style) + pkg_process_block(
            processes[k - 1],
            monorepo,
            k == processes.len(),
            style,
        )
    }
}

/// The block of a package: nothing for a package without programs; else its
/// name, where the workspace holds several packages, and its programs.
pub open spec fn pkg_block(package: Package, processes: Seq<Process>, monorepo: bool, style: MetaStyle) -> Seq<char> {
    if processes.len() == 0 {
        Seq::empty()
    } else {
        (if monorepo {
            name_text(package.name@) + "\n"@
        } else {
            Seq::empty()
        }) + pkg_process_blocks(processes, processes.len() as int, monorepo, style)
    }
}

/// The blocks of the first `k` packages in display order.
pub open spec fn pkg_blocks(ws: Workspace, table: ProcessTable, k: int, style: MetaStyle) -> Seq<char>
    decreases k,
{
    if k <= 0 {
        Seq::empty()
    } else {
        let at = ws.spec_display_order()[k - 1] as int;
        pkg_blocks(ws, table, k - 1, style) + pkg_block(ws.packages@[at], table.packages@[at]@, ws.monorepo, style)
    }
}

/// The text of the line-by-line view: the programs of the workspace, then
/// the packages in display order, each with its programs.
pub open spec fn output_text(ws: Workspace, table: ProcessTable, style: MetaStyle) -> Seq<char> {
    ws_blocks(table.workspace@, table.workspace@.len() as int, style) + pkg_blocks(
        ws,
        table,
        ws.spec_display_order().len() as int,
        style,
    )
}

/// Appends `text`, set off, to `out`.
fn append_meta(out: &mut String, style: &MetaStyle, text: &str)
    ensures
        final(out)@ == old(out)@ + meta(*style, text@),
{
    let ghost before = out@;
    out.append(style.start.as_str());
    out.append(text);
    out.append(style.end.as_str());
    proof {
        assert(out@ =~= before + meta(*style, text@));
    }
}

/// Appends the lines of `process`, each behind `prefix` and a bar, and the
/// line that says whether the program has ended.
fn append_process_body(out: &mut String, process: &Process, prefix: &str, style: &MetaStyle)
    ensures
        final(out)@ == old(out)@ + lines_block(process.spec_logs(), prefix@, *style) + trailer(
            prefix@,
            process.spec_finished(),
            *style,
        ),
{
    let ghost before = out@;
    let logs = process.stdout();
    let ghost views = line_views(logs@);
    let n = logs.len();
    let bar = String::from_str(prefix).concat("│ ");
    let mut i: usize = 0;
    proof {
        assert(before + lines_block(views.take(0), prefix@, *style) =~= before);
    }
    while i < n
        invariant
            i <= n,
            n == logs@.len(),
            views == line_views(logs@),
            bar@ == prefix@ + "│ "@,
            out@ == before + lines_block(views.take(i as int), prefix@, *style),
        decreases n - i,
    {
        let ghost prev = out@;
        let line = logs.get(i);
        append_meta(out, style, bar.as_str());
        out.append(line.line.as_str());
        out.append("\n");
        proof {
            assert(views.take(i + 1).drop_last() =~= views.take(i as int));
            assert(views.take(i + 1).last() == logs@[i as int]@);
            assert(out@ =~= before + lines_block(views.take(i + 1), prefix@, *style));
        }
        i += 1;
    }
    proof {
        assert(views.take(n as int) =~= views);
    }
    let mut last = String::from_str(prefix);
    last.append("└─ ");
    last.append(if process.finished() {
        "finished"
    } else {
        "running..."
    });
    last.append("\n");
    append_meta(out, style, last.as_str());
    proof {
        assert(out@
            =~= before + lines_block(process.spec_logs(), prefix@, *style) + trailer(prefix@, process.spec_finished(), *style));
    }
}

/// Renders a run line by line, as a package manager does.
pub struct InlineRenderer {
    pub width: u32,
    pub height: u32,
}

impl InlineRenderer {
    /// A renderer for a terminal of the given size in columns and lines; for
    /// one of 80 columns and 40 lines where the size is not known.
    pub fn new(size: Option<(u16, u16)>) -> (r: Self)
        ensures
            match size {
                Some((w, h)) => r.width == w && r.height == h,
                None => r.width == 80 && r.height == 40,
            },
    {
        match size {
            Some((w, h)) => InlineRenderer { width: w as u32, height: h as u32 },
            None => InlineRenderer { width: 80, height: 40 },
        }
    }

    /// The text that shows the run as it stands.
    pub fn build_output(ws: &Workspace, table: &ProcessTable, style: &MetaStyle) -> (r: String)
        requires
            ws.wf(),
            table.packages@.len() == ws.packages@.len(),
        ensures
            r@ == output_text(*ws, *table, *style),
    {
        let mut out = String::new();
        let mut i: usize = 0;
        proof {
            assert(out@ =~= ws_blocks(table.workspace@, 0, *style));
        }
        while i < table.workspace.len()
            invariant
                i <= table.workspace@.len(),
                out@ == ws_blocks(table.workspace@, i as int, *style),
            decreases table.workspace.len() - i,
        {
            let ghost prev = out@;
            let process = &table.workspace[i];
            out.append("ws/");
            out.append(process.script());
            out.append("\n");
            append_process_body(&mut out, process, "", style);
            proof {
                assert(""@ =~= Seq::<char>::empty()) by {
                    reveal_strlit("");
                }
                assert(out@ =~= prev + ws_block(table.workspace@[i as int], *style));
            }
            i += 1;
        }
        let ghost head = out@;
        let order = ws.display_positions();
        let mut k: usize = 0;
        proof {
            assert(head + pkg_blocks(*ws, *table, 0, *style) =~= head);
        }
        while k < order.len()
            invariant
                k <= order@.len(),
                ws.wf(),
                order@ == ws.spec_display_order(),
                table.packages@.len() == ws.packages@.len(),
                out@ == head + pkg_blocks(*ws, *table, k as int, *style),
            decreases order.len() - k,
        {
            let ghost prev = out@;
            let at = order[k];
            assert(ws.spec_display_order()[k as int] < ws.packages@.len());
            let processes = &table.packages[at];
            let count = processes.len();
            if count > 0 {
                if ws.monorepo {
                    let name = ws.packages[at].name.to_string();
                    out.append(name.as_str());
                    out.append("\n");
                }
                let ghost top = out@;
                let mut j: usize = 0;
                proof {
                    assert(top + pkg_process_blocks(processes@, 0, ws.monorepo, *style) =~= top);
                }
                while j < count
                    invariant
                        j <= count,
                        count == processes@.len(),
                        out@ == top + pkg_process_blocks(processes@, j as int, ws.monorepo, *style),
                    decreases count - j,
                {
                    let ghost before = out@;
                    let process = &processes[j];
                    let last = j == count - 1;
                    if ws.monorepo {
                        append_meta(&mut out, style, if last {
                            "└─ "
                        } else {
                            "├─ "
                        });
                    }
                    out.append(process.script());
                    out.append("\n");
                    let prefix = if ws.monorepo {
                        if last {
                            "   "
                        } else {
                            "│  "
                        }
                    } else {
                        ""
                    };
                    proof {
                        assert(""@ =~= Seq::<char>::empty()) by {
                            reveal_strlit("");
                        }
                        assert(prefix@ == branch_prefix(ws.monorepo, last));
                    }
                    append_process_body(&mut out, process, prefix, style);
                    proof {
                        assert(out@
                            =~= before + pkg_process_block(processes@[j as int], ws.monorepo, j + 1 == processes@.len(), *style));
                    }
                    j += 1;
                }
                proof {
                    assert(out@ =~= prev + pkg_block(ws.packages@[at as int], processes@, ws.monorepo, *style));
                }
            }
            proof {
                assert(out@ =~= head + pkg_blocks(*ws, *table, k + 1, *style));
            }
            k += 1;
        }
        out
    }
}

/// A key that was pressed while the run is shown on the whole screen.
#[derive(Copy, Clone, PartialEq, Eq, Debug)]
pub enum Key {
    /// The letter c with the control key.
    CtrlC,
    Left,
    Right,
    Other,
}

/// Shows a run on the whole screen, one package at a time.
pub struct FullscreenRenderer {
    selected: isize,
}

/// The number before `x`, and the largest number before the smallest.
pub open spec fn step_back(x: isize) -> isize {
    if x == isize::MIN {
        isize::MAX
    } else {
        (x - 1) as isize
    }
}

/// The number after `x`, and the smallest number after the largest.
pub open spec fn step_on(x: isize) -> isize {
    if x == isize::MAX {
        isize::MIN
    } else {
        (x + 1) as isize
    }
}

impl FullscreenRenderer {
    /// How often the selection was moved on, less how often it was moved back.
    pub closed spec fn selected(&self) -> isize {
        self.selected
    }

    /// A renderer with the selection at its start.
    pub fn new() -> (r: Self)
        ensures
            r.selected() == 0,
    {
        FullscreenRenderer { selected: 0 }
    }

    /// Takes note of a key: the arrows move the selection, and the letter c
    /// with the control key asks for the run to end early, which is what the
    /// result says.
    pub fn handle_input(&mut self, key: Key) -> (exit_early: bool)
        ensures
            exit_early == (key is CtrlC),
            final(self).selected() == match key {
                Key::Left => step_back(old(self).selected()),
                Key::Right => step_on(old(self).selected()),
                _ => old(self).selected(),
            },
    {
        match key {
            Key::CtrlC => true,
            Key::Left => {
                self.selected = if self.selected == isize::MIN {
                    isize::MAX
                } else {
                    self.selected - 1
                };
                false
            },
            Key::Right => {
                self.selected = if self.selected == isize::MAX {
                    isize::MIN
                } else {
                    self.selected + 1
                };
                false
            },
            Key::Other => false,
        }
    }

    /// The place in display order of the package that is shown, among `n`
    /// packages: the selection counted round and round.
    pub fn selected_index(&self, n: usize) -> (r: usize)
        requires
            n > 0,
        ensures
            r == self.selected() as int % n as int,
            r < n,
    {
        if self.selected >= 0 {
            (self.selected as usize) % n
        } else {
            let behind = (-(self.selected + 1)) as usize;
            let back = behind % n;
            proof {
                let q = behind as int / n as int;
                assert(behind as int == q * n + back) by {
                    vstd::arithmetic::div_mod::lemma_fundamental_div_mod(behind as int, n as int);
                    assert(n as int * q == q * n) by (nonlinear_arith);
                }
                assert(self.selected as int == (-(q + 1)) * n + (n - 1 - back)) by (nonlinear_arith)
                    requires
                        self.selected as int == -(behind as int) - 1,
                        behind as int == q * n + back,
                ;
                vstd::arithmetic::div_mod::lemma_fundamental_div_mod_converse(
                    self.selected as int,
                    n as int,
                    -(q + 1),
                    n - 1 - back,
                );
            }
            n - 1 - back
        }
    }

    /// The labels of the tabs, one for each package in display order, each
    /// with a mark that says whether it is the selected one; none where the
    /// workspace is one package.
    pub fn build_tabs(ws: &Workspace, selected: usize) -> (r: Option<Vec<(String, bool)>>)
        requires
            ws.wf(),
        ensures
            r is Some <==> ws.monorepo,
            r is Some ==> {
                &&& r->0@.len() == ws.packages@.len()
                &&& forall|i: int|
                    0 <= i < r->0@.len() ==> {
                        &&& (#[trigger] r->0@[i]).0@ == name_text(ws.packages@[ws.spec_display_order()[i] as int].name@)
                        &&& r->0@[i].1 == (i == selected)
                    }
            },
    {
        if !ws.monorepo {
            return None;
        }
        let order = ws.display_positions();
        let mut titles: Vec<(String, bool)> = Vec::new();
        let mut i: usize = 0;
        while i < order.len()
            invariant
                i <= order@.len(),
                ws.wf(),
                order@ == ws.spec_display_order(),
                titles@.len() == i,
                forall|k: int|
                    0 <= k < i ==> {
                        &&& (#[trigger] titles@[k]).0@ == name_text(ws.packages@[ws.spec_display_order()[k] as int].name@)
                        &&& titles@[k].1 == (k == selected)
                    },
            decreases order.len() - i,
        {
            let at = order[i];
            assert(ws.spec_display_order()[i as int] < ws.packages@.len());
            titles.push((ws.packages[at].name.to_string(), i == selected));
            i += 1;
        }
        Some(titles)
    }

    /// The programs that are shown of a package that runs `count` programs:
    /// as many as there are panes, the first ones.
    pub fn visible_processes(count: usize) -> (r: usize)
        ensures
            r == if count < PANES {
                count
            } else {
                PANES
            },
    {
        if count < PANES {
            count
        } else {
            PANES
        }
    }

    /// The lines that fill the pane of `process`, which is `height` lines
    /// high: the newest ones, oldest first.
    pub fn render_process_pane(process: &Process, height: usize) -> (r: Vec<&LogLine>)
        ensures
            r@.len() == if height <= process.spec_logs().len() {
                height as nat
            } else {
                process.spec_logs().len()
            },
            forall|i: int|
                0 <= i < r@.len() ==> (#[trigger] r@[i])@ == process.spec_logs()[process.spec_logs().len() - r@.len() + i],
    {
        let logs = process.stdout();
        let lines = logs.tail(height);
        proof {
            assert forall|i: int|
                0 <= i < lines@.len() implies
                (#[trigger] lines@[i])@ == process.spec_logs()[process.spec_logs().len() - lines@.len() + i] by {
                assert(*lines@[i] == logs@[logs@.len() - lines@.len() + i]);
                assert(line_views(logs@)[logs@.len() - lines@.len() + i] == logs@[logs@.len() - lines@.len() + i]@);
            }
        }
        lines
    }
}

/// What a renderer's loop can be woken by.
#[derive(Copy, Clone, PartialEq, Eq, Debug)]
pub enum Wake {
    /// The run is over.
    Exit,
    /// The user pressed a key.
    Input,
    /// It is time to draw again.
    Tick,
}

/// Of the things that are ready, the one that a renderer's loop turns to:
/// the end of the run before a key, and a key before the drawing.
pub fn select_biased(exit_ready: bool, input_ready: bool, tick_ready: bool) -> (r: Option<Wake>)
    ensures
        r == (if exit_ready {
            Some(Wake::Exit)
        } else if input_ready {
            Some(Wake::Input)
        } else if tick_ready {
            Some(Wake::Tick)
        } else {
            None
        }),
{
    if exit_ready {
        Some(Wake::Exit)
    } else if input_ready {
        Some(Wake::Input)
    } else if tick_ready {
        Some(Wake::Tick)
    } else {
        None
    }
}

/// What a renderer's loop does next.
#[derive(Copy, Clone, PartialEq, Eq, Debug)]
pub enum LoopStep {
    /// Draw the run as it stands.
    Render,
    /// Go on waiting.
    Continue,
    /// Leave the loop and draw for the last time. `exit_early` says whether
    /// the run is to end because the user asked for it.
    Complete { exit_early: bool },
}

/// What a renderer's loop does when it was woken by `wake`; `exit_early`
/// says, for a key, whether it asks for the run to end.
pub fn render_loop(wake: Wake, exit_early: bool) -> (r: LoopStep)
    ensures
        r == match wake {
            Wake::Exit => LoopStep::Complete { exit_early: false },
            Wake::Input => if exit_early {
                LoopStep::Complete { exit_early: true }
            } else {
                LoopStep::Continue
            },
            Wake::Tick => LoopStep::Render,
        },
{
    match wake {
        Wake::Exit => LoopStep::Complete { exit_early: false },
        Wake::Input => if exit_early {
            LoopStep::Complete { exit_early: true }
        } else {
            LoopStep::Continue
        },
        Wake::Tick => LoopStep::Render,
    }
}

} // verus!
