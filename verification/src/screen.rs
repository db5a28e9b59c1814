//! What each part of the screen says, and in which ink: the status line,
//! the tab bar, the table's header and rows, the footer, the frame titles
//! and the peek box. Drawing them is left to the terminal side.

use vstd::prelude::*;
use vstd::string::*;
use vstd::view::View as ViewOf;
use crate::app::{App, Mode};
use crate::display::{view_hint, view_hint_spec};
use crate::text::{lit, cat, decimal, decimal_u64, string_of, push_char, chars_of, trim_chars, trimmed, views_of};
use crate::docker::{View, Item, view_columns, view_title};
use crate::app::{tabs_spec, selected_spec};

verus! {

/// The colour a piece of text is drawn in.
#[derive(Clone, Copy, Debug, PartialEq, Eq, Structural)]
pub enum Hue {
    /// The terminal's own foreground.
    Plain,
    /// The accent colour (cyan).
    Accent,
    /// Healthy (green).
    Good,
    /// Failed or unreachable (red).
    Bad,
    /// Transitional or noteworthy (yellow).
    Warn,
    /// Receding (dark grey).
    Dim,
    /// Neutral (grey).
    Gray,
    /// Marked rows and drill-downs (magenta).
    Mark,
    /// Black on the accent colour.
    Badge,
}

/// A colour, and whether the text is bold.
#[derive(Clone, Copy, Debug, PartialEq, Eq, Structural)]
pub struct Ink {
    pub hue: Hue,
    pub bold: bool,
}

/// A run of text and its ink.
#[derive(Debug)]
pub struct Piece {
    pub text: String,
    pub ink: Ink,
}

impl ViewOf for Piece {
    type V = (Seq<char>, Ink);

    open spec fn view(&self) -> (Seq<char>, Ink) {
        (self.text@, self.ink)
    }
}

/// The views of a sequence of pieces.
pub open spec fn pieces(v: Seq<Piece>) -> Seq<(Seq<char>, Ink)> {
    v.map_values(|p: Piece| p@)
}

/// Ink of hue `hue`, bold or not.
pub open spec fn ink(hue: Hue, bold: bool) -> Ink {
    Ink { hue, bold }
}

/// Appends a piece.
fn put(v: &mut Vec<Piece>, text: String, hue: Hue, bold: bool)
    ensures
        pieces(final(v)@) == pieces(old(v)@).push((text@, ink(hue, bold))),
{
    let ghost before = v@;
    v.push(Piece { text, ink: Ink { hue, bold } });
    assert(pieces(v@) =~= pieces(before).push((text@, ink(hue, bold))));
}

/// Whether `s` is empty.
fn is_empty(s: &String) -> (b: bool)
    ensures
        b == (s@.len() == 0),
{
    s.as_str().unicode_len() == 0
}

/// The footer: the prompt being typed (log search, command, filter), else
/// the status message (red when it is a warning), else the view's key hint.
pub open spec fn footer_spec(s: App) -> Seq<(Seq<char>, Ink)> {
    if s.mode == Mode::Logs && s.log_searching {
        seq![("log /"@, ink(Hue::Warn, true)), (s.log_filter@, ink(Hue::Plain, false)), ("▏"@, ink(Hue::Warn, false))]
    } else if s.commanding {
        seq![(":"@, ink(Hue::Accent, true)), (s.command@, ink(Hue::Plain, false)), ("▏"@, ink(Hue::Accent, false))]
    } else if s.filtering || s.filter@.len() > 0 {
        seq![
            ("/"@, ink(Hue::Warn, true)),
            (s.filter@, ink(Hue::Plain, false)),
            (if s.filtering {
                "▏"@
            } else {
                ""@
            }, ink(Hue::Warn, false)),
        ]
    } else if s.status@.len() > 0 {
        seq![(s.status@, ink(if s.status@[0] == '⚠' {
            Hue::Bad
        } else {
            Hue::Gray
        }, false))]
    } else {
        seq![(view_hint_spec(s.view)@, ink(Hue::Dim, false))]
    }
}

/// Ink of the swarm state: green when active, red when unreachable or not
/// yet known, yellow otherwise.
pub open spec fn swarm_hue(swarm: Seq<char>) -> Hue {
    if swarm == "active"@ {
        Hue::Good
    } else if swarm == "unreachable"@ || swarm.len() == 0 {
        Hue::Bad
    } else {
        Hue::Warn
    }
}

/// Name of sort column `col` of `view` on the status line (`col0` for a
/// column without a title).
pub open spec fn sort_label(view: View, col: nat) -> Seq<char> {
    let name = if col < view_columns(view).len() {
        view_columns(view)[col as int]@
    } else {
        Seq::empty()
    };
    if name.len() == 0 {
        "col0"@
    } else {
        name
    }
}

/// The fixed start of the status line: badge, context and swarm state.
pub open spec fn status_head(s: App) -> Seq<(Seq<char>, Ink)> {
    let h = swarm_hue(s.swarm@);
    seq![
        (" d9cker "@, ink(Hue::Badge, true)),
        ("  "@, ink(Hue::Plain, false)),
        (s.context@, ink(Hue::Accent, true)),
        ("  "@, ink(Hue::Plain, false)),
        ("●"@, ink(h, true)),
        (" swarm "@ + if s.swarm@.len() == 0 {
            "…"@
        } else {
            s.swarm@
        }, ink(h, false)),
    ]
}

/// The notes after the head: running-only or all (Containers), the drilled
/// service or stack, the sideways scroll, the sort column and direction,
/// and the number of marks.
pub open spec fn status_notes(s: App) -> Seq<(Seq<char>, Ink)> {
    let none = Seq::<(Seq<char>, Ink)>::empty();
    (if s.view == View::Containers {
        if s.show_all {
            seq![("  all"@, ink(Hue::Warn, false))]
        } else {
            seq![("  running only"@, ink(Hue::Dim, false))]
        }
    } else {
        none
    }) + (if s.view == View::ServiceTasks && s.drill_service@.len() > 0 {
        seq![("  › tasks: "@ + s.drill_service@, ink(Hue::Mark, false))]
    } else {
        none
    }) + (if s.view == View::StackTasks && s.drill_stack@.len() > 0 {
        seq![("  › stack: "@ + s.drill_stack@, ink(Hue::Mark, false))]
    } else {
        none
    }) + (if s.hscroll > 0 {
        seq![("   →"@ + decimal(s.hscroll as nat), ink(Hue::Dim, false))]
    } else {
        none
    }) + (match s.sort_col {
        Some(c) => seq![
            ("   sort "@ + sort_label(s.view, c as nat) + " "@ + if s.sort_desc {
                "▼"@
            } else {
                "▲"@
            }, ink(Hue::Warn, false)),
        ],
        None => none,
    }) + (if s.marked@ != Set::<Seq<char>>::empty() {
        seq![("  ✳ "@ + decimal(s.marked@.len()) + " marked"@, ink(Hue::Mark, false))]
    } else {
        none
    })
}

/// `a` followed by the decimal digits of `n`.
fn with_number(a: &str, n: usize) -> (r: String)
    ensures
        r@ == a@ + decimal(n as nat),
{
    let d = decimal_u64(n as u64);
    let t = string_of(&d);
    cat(a, t.as_str())
}

impl App {
    /// The status line's pieces, left of the help hint.
    pub fn status_line(&self) -> (r: Vec<Piece>)
        requires
            self.wf(),
        ensures
            pieces(r@) == status_head(*self) + status_notes(*self),
    {
        let hue = if self.swarm == lit("active") {
            Hue::Good
        } else if self.swarm == lit("unreachable") || is_empty(&self.swarm) {
            Hue::Bad
        } else {
            Hue::Warn
        };
        let mut r: Vec<Piece> = Vec::new();
        put(&mut r, lit(" d9cker "), Hue::Badge, true);
        put(&mut r, lit("  "), Hue::Plain, false);
        put(&mut r, lit(self.context.as_str()), Hue::Accent, true);
        put(&mut r, lit("  "), Hue::Plain, false);
        put(&mut r, lit("●"), hue, true);
        let sw = if is_empty(&self.swarm) {
            lit("…")
        } else {
            lit(self.swarm.as_str())
        };
        put(&mut r, cat(" swarm ", sw.as_str()), hue, false);
        assert(pieces(r@) =~= status_head(*self));
        let ghost head = pieces(r@);
        let ghost none = Seq::<(Seq<char>, Ink)>::empty();
        if self.view == View::Containers {
            if self.show_all {
                put(&mut r, lit("  all"), Hue::Warn, false);
            } else {
                put(&mut r, lit("  running only"), Hue::Dim, false);
            }
        }
        let ghost p1 = pieces(r@);
        if self.view == View::ServiceTasks && !is_empty(&self.drill_service) {
            put(&mut r, cat("  › tasks: ", self.drill_service.as_str()), Hue::Mark, false);
        }
        let ghost p2 = pieces(r@);
        if self.view == View::StackTasks && !is_empty(&self.drill_stack) {
            put(&mut r, cat("  › stack: ", self.drill_stack.as_str()), Hue::Mark, false);
        }
        let ghost p3 = pieces(r@);
        if self.hscroll > 0 {
            put(&mut r, with_number("   →", self.hscroll), Hue::Dim, false);
        }
        let ghost p4 = pieces(r@);
        if let Some(c) = self.sort_col {
            let cols = self.view.columns();
            let name: &str = if c < cols.len() {
                cols[c]
            } else {
                ""
            };
            proof {
                reveal_strlit("");
            }
            let label = if name.unicode_len() == 0 {
                lit("col0")
            } else {
                lit(name)
            };
            let mut t = cat("   sort ", label.as_str());
            t.append(" ");
            t.append(if self.sort_desc {
                "▼"
            } else {
                "▲"
            });
            put(&mut r, t, Hue::Warn, false);
        }
        let ghost p5 = pieces(r@);
        if !self.marked.is_empty() {
            let mut t = with_number("  ✳ ", self.marked.len());
            t.append(" marked");
            put(&mut r, t, Hue::Mark, false);
        }
        assert(pieces(r@) =~= status_head(*self) + status_notes(*self));
        r
    }
}

/// `n` copies of `c`.
pub open spec fn repeat(c: char, n: nat) -> Seq<char> {
    Seq::new(n, |i: int| c)
}

/// A `String` of `n` copies of `c`.
fn repeat_char(c: char, n: usize) -> (r: String)
    ensures
        r@ == repeat(c, n as nat),
{
    let mut r = lit("");
    proof {
        reveal_strlit("");
    }
    let mut i: usize = 0;
    while i < n
        invariant
            i <= n,
            r@ =~= repeat(c, i as nat),
        decreases n - i,
    {
        push_char(&mut r, c);
        i += 1;
        assert(r@ =~= repeat(c, i as nat));
    }
    r
}

/// The label of tab `v`: its title, with the number of rows when it is the
/// view shown.
pub open spec fn tab_label(s: App, v: View) -> Seq<char> {
    if s.view == v {
        " "@ + view_title(v)@ + " "@ + decimal(s.items@.len()) + " "@
    } else {
        " "@ + view_title(v)@ + " "@
    }
}

/// Tab `v` is raised: it is the view shown, or the list that view drills
/// into.
pub open spec fn tab_raised(s: App, v: View) -> bool {
    s.view == v || (s.view == View::ServiceTasks && v == View::Services) || (s.view == View::StackTasks && v
        == View::Stacks)
}

/// The tab bar's two rows after laying out the first `k` of `tabs` in `w`
/// columns: the caps above, the labels on the box's top border, the columns
/// used, and whether a tab did not fit (which ends the layout). Each tab
/// follows a two-column gap; the raised one is capped and flares into the
/// border.
pub open spec fn tab_rows(s: App, tabs: Seq<View>, w: nat, k: nat) -> (Seq<(Seq<char>, Ink)>, Seq<(Seq<char>, Ink)>, nat, bool)
    decreases k,
{
    if k == 0 {
        (seq![(" "@, ink(Hue::Plain, false))], seq![("╭"@, ink(Hue::Dim, false))], 1, false)
    } else {
        let (top, bot, used, full) = tab_rows(s, tabs, w, (k - 1) as nat);
        if full || k > tabs.len() {
            (top, bot, used, full)
        } else {
            let v = tabs[k - 1];
            let top1 = top.push(("  "@, ink(Hue::Plain, false)));
            let bot1 = bot.push(("──"@, ink(Hue::Dim, false)));
            let used1 = used + 2;
            let label = tab_label(s, v);
            let l = label.len();
            if used1 + l + 2 >= w {
                (top1, bot1, used1, true)
            } else if tab_raised(s, v) {
                (
                    top1.push(("╭"@ + repeat('─', l) + "╮"@, ink(Hue::Accent, true))),
                    bot1.push(("╯"@, ink(Hue::Accent, true))).push((label, ink(Hue::Accent, true))).push(
                        ("╰"@, ink(Hue::Accent, true)),
                    ),
                    used1 + l + 2,
                    false,
                )
            } else {
                (top1.push((repeat(' ', l), ink(Hue::Plain, false))), bot1.push((label, ink(Hue::Gray, false))), used1 + l, false)
            }
        }
    }
}

/// The tab bar in `w` columns: the tabs that fit, then the border run to
/// the right edge and closed with a corner.
pub open spec fn tab_bar_spec(s: App, w: nat) -> (Seq<(Seq<char>, Ink)>, Seq<(Seq<char>, Ink)>) {
    let tabs = tabs_spec(s);
    let (top, bot, used, full) = tab_rows(s, tabs, w, tabs.len());
    if used < w {
        let fill = (w - used - 1) as nat;
        (
            top.push((repeat(' ', fill + 1), ink(Hue::Plain, false))),
            bot.push((repeat('─', fill), ink(Hue::Dim, false))).push(("╮"@, ink(Hue::Dim, false))),
        )
    } else {
        (top, bot)
    }
}

impl App {
    /// The label of tab `v`.
    fn tab_label_of(&self, v: View) -> (r: String)
        ensures
            r@ == tab_label(*self, v),
    {
        let mut t = cat(" ", v.title());
        if self.view == v {
            t.append(" ");
            let n = with_number(t.as_str(), self.items.len());
            let mut n = n;
            n.append(" ");
            n
        } else {
            t.append(" ");
            t
        }
    }

    /// The tab bar's two rows for a terminal `width` columns wide.
    pub fn tab_bar(&self, width: u16) -> (r: (Vec<Piece>, Vec<Piece>))
        ensures
            (pieces(r.0@), pieces(r.1@)) == tab_bar_spec(*self, width as nat),
    {
        let w = width as usize;
        let tabs = self.tabs();
        let mut top: Vec<Piece> = Vec::new();
        let mut bot: Vec<Piece> = Vec::new();
        put(&mut top, lit(" "), Hue::Plain, false);
        put(&mut bot, lit("╭"), Hue::Dim, false);
        let mut used: usize = 1;
        let mut full = false;
        assert(pieces(top@) =~= seq![(" "@, ink(Hue::Plain, false))]);
        assert(pieces(bot@) =~= seq![("╭"@, ink(Hue::Dim, false))]);
        let mut k: usize = 0;
        while k < tabs.len()
            invariant
                k <= tabs@.len(),
                tabs@ == tabs_spec(*self),
                w == width as nat,
                used <= w + 3,
                !full ==> used <= w + 1,
                (pieces(top@), pieces(bot@), used as nat, full) == tab_rows(*self, tabs@, w as nat, k as nat),
            decreases tabs.len() - k,
        {
            let ghost t0 = pieces(top@);
            let ghost b0 = pieces(bot@);
            if !full {
                let v = tabs[k];
                put(&mut top, lit("  "), Hue::Plain, false);
                put(&mut bot, lit("──"), Hue::Dim, false);
                let used1 = used + 2;
                let label = self.tab_label_of(v);
                let l = label.as_str().unicode_len();
                if !(used1 + 2 < w && l < w - used1 - 2) {
                    used = used1;
                    full = true;
                } else if self.view == v || (self.view == View::ServiceTasks && v == View::Services) || (
                self.view == View::StackTasks && v == View::Stacks) {
                    let mut cap = cat("╭", repeat_char('─', l).as_str());
                    cap.append("╮");
                    put(&mut top, cap, Hue::Accent, true);
                    put(&mut bot, lit("╯"), Hue::Accent, true);
                    put(&mut bot, label, Hue::Accent, true);
                    put(&mut bot, lit("╰"), Hue::Accent, true);
                    used = used1 + l + 2;
                } else {
                    put(&mut top, repeat_char(' ', l), Hue::Plain, false);
                    put(&mut bot, label, Hue::Gray, false);
                    used = used1 + l;
                }
            }
            k += 1;
        }
        if used < w {
            let fill = w - used - 1;
            put(&mut top, repeat_char(' ', fill + 1), Hue::Plain, false);
            put(&mut bot, repeat_char('─', fill), Hue::Dim, false);
            put(&mut bot, lit("╮"), Hue::Dim, false);
        }
        (top, bot)
    }
}

/// The table's column titles, the sort column's with an arrow (▲ rising,
/// ▼ falling) and in warning ink, the others in the accent, all bold.
pub open spec fn header_spec(s: App) -> Seq<(Seq<char>, Ink)> {
    Seq::new(
        view_columns(s.view).len(),
        |i: int|
            if s.sort_col == Some(i as usize) {
                (view_columns(s.view)[i]@ + if s.sort_desc {
                    " ▼"@
                } else {
                    " ▲"@
                }, ink(Hue::Warn, true))
            } else {
                (view_columns(s.view)[i]@, ink(Hue::Accent, true))
            },
    )
}

/// How a table row is drawn.
#[derive(Clone, Copy, Debug, PartialEq, Eq, Structural)]
pub enum RowLook {
    /// A group heading, across the table in the accent.
    Heading,
    /// The selected row, highlighted.
    Selected,
    /// A marked row, in the mark ink.
    Marked,
    /// A container that is not running, dimmed.
    Dimmed,
    Plain,
}

/// Look of row `it` shown at position `pos`: selection wins over a mark,
/// a mark over dimming.
pub open spec fn row_look_spec(s: App, pos: int, it: Item) -> RowLook {
    if it.header {
        RowLook::Heading
    } else if pos == s.selected {
        RowLook::Selected
    } else if s.marked@.contains(it.id@) {
        RowLook::Marked
    } else if s.view == View::Containers && it.cells@.len() > 3 && it.cells@[3]@ != "running"@ {
        RowLook::Dimmed
    } else {
        RowLook::Plain
    }
}

/// The mark gutter of row `it`: `*` for a marked non-heading row.
pub open spec fn gutter_spec(s: App, it: Item) -> Seq<char> {
    if !it.header && s.marked@.contains(it.id@) {
        "*"@
    } else {
        " "@
    }
}

/// Title of the log frame showing lines `start..end` of `total`: the
/// stream's name, following or paused, wrapping, and the in-log search.
pub open spec fn log_frame_spec(s: App, start: nat, end: nat, total: nat) -> Seq<char> {
    " logs: "@ + s.log_title@ + "  ["@ + (if s.log_follow {
        "FOLLOW"@
    } else {
        "PAUSED"@
    }) + (if s.log_wrap {
        " wrap"@
    } else {
        ""@
    }) + "]  "@ + decimal(start) + "-"@ + decimal(end) + "/"@ + decimal(total) + (if s.log_filter@.len() == 0 {
        ""@
    } else {
        "  /"@ + s.log_filter@
    }) + " "@
}

/// The peek box's lines for the first `k` columns titled `cols` of a row
/// with cells `cells`: each column's title, the cell's full value (— when
/// empty) and a blank line; a column without a title whose cell is blank
/// is left out.
pub open spec fn peek_spec(cols: Seq<&str>, cells: Seq<Seq<char>>, k: nat) -> Seq<(Seq<char>, Ink)>
    decreases k,
{
    if k == 0 || k > cols.len() {
        Seq::empty()
    } else {
        let prev = peek_spec(cols, cells, (k - 1) as nat);
        let i = k - 1;
        let name = cols[i]@;
        let value = if i < cells.len() {
            cells[i]
        } else {
            Seq::empty()
        };
        if name.len() == 0 && trimmed(value).len() == 0 {
            prev
        } else {
            prev + seq![
                (name, ink(Hue::Accent, true)),
                (if value.len() == 0 {
                    "—"@
                } else {
                    value
                }, ink(Hue::Plain, false)),
                (""@, ink(Hue::Plain, false)),
            ]
        }
    }
}

impl App {
    /// The table's column titles.
    pub fn header_cells(&self) -> (r: Vec<Piece>)
        ensures
            pieces(r@) == header_spec(*self),
    {
        let cols = self.view.columns();
        let mut r: Vec<Piece> = Vec::new();
        let mut i: usize = 0;
        while i < cols.len()
            invariant
                i <= cols@.len(),
                cols@ == view_columns(self.view),
                pieces(r@) =~= header_spec(*self).take(i as int),
            decreases cols.len() - i,
        {
            if self.sort_col == Some(i) {
                let t = cat(cols[i], if self.sort_desc {
                    " ▼"
                } else {
                    " ▲"
                });
                put(&mut r, t, Hue::Warn, true);
            } else {
                put(&mut r, lit(cols[i]), Hue::Accent, true);
            }
            i += 1;
            assert(pieces(r@) =~= header_spec(*self).take(i as int));
        }
        assert(header_spec(*self).take(cols@.len() as int) =~= header_spec(*self));
        r
    }

    /// How row `it`, shown at position `pos`, is drawn.
    pub fn row_look(&self, pos: usize, it: &Item) -> (r: RowLook)
        ensures
            r == row_look_spec(*self, pos as int, *it),
    {
        if it.header {
            RowLook::Heading
        } else if pos == self.selected {
            RowLook::Selected
        } else if self.marked.contains(it.id.as_str()) {
            RowLook::Marked
        } else if self.view == View::Containers && it.cells.len() > 3 && it.cells[3] != lit("running") {
            RowLook::Dimmed
        } else {
            RowLook::Plain
        }
    }

    /// The mark gutter of row `it`.
    pub fn gutter(&self, it: &Item) -> (r: &'static str)
        ensures
            r@ == gutter_spec(*self, *it),
    {
        if !it.header && self.marked.contains(it.id.as_str()) {
            "*"
        } else {
            " "
        }
    }

    /// Title of the log frame showing lines `start..end` of `total`.
    pub fn log_frame_title(&self, start: usize, end: usize, total: usize) -> (r: String)
        ensures
            r@ == log_frame_spec(*self, start as nat, end as nat, total as nat),
    {
        proof {
            reveal_strlit("");
        }
        let mut t = cat(" logs: ", self.log_title.as_str());
        t.append("  [");
        t.append(if self.log_follow {
            "FOLLOW"
        } else {
            "PAUSED"
        });
        t.append(if self.log_wrap {
            " wrap"
        } else {
            ""
        });
        t.append("]  ");
        let mut t = with_number(t.as_str(), start);
        t.append("-");
        let mut t = with_number(t.as_str(), end);
        t.append("/");
        let mut t = with_number(t.as_str(), total);
        if !is_empty(&self.log_filter) {
            t.append("  /");
            t.append(self.log_filter.as_str());
        }
        t.append(" ");
        t
    }

    /// The peek box's lines for the selected row, if there is one.
    pub fn peek_lines(&self) -> (r: Option<Vec<Piece>>)
        ensures
            match selected_spec(*self) {
                Some(it) => r matches Some(v) && pieces(v@) == peek_spec(
                    view_columns(self.view),
                    views_of(it.cells@),
                    view_columns(self.view).len(),
                ),
                None => r is None,
            },
    {
        let it = match self.selected_item() {
            Some(it) => it,
            None => return None,
        };
        let cols = self.view.columns();
        let ghost cells = views_of(it.cells@);
        let mut r: Vec<Piece> = Vec::new();
        let mut i: usize = 0;
        assert(pieces(r@) =~= Seq::<(Seq<char>, Ink)>::empty());
        while i < cols.len()
            invariant
                i <= cols@.len(),
                cols@ == view_columns(self.view),
                cells == views_of(it.cells@),
                pieces(r@) == peek_spec(cols@, cells, i as nat),
            decreases cols.len() - i,
        {
            let name = cols[i];
            let value = if i < it.cells.len() {
                lit(it.cells[i].as_str())
            } else {
                lit("")
            };
            proof {
                reveal_strlit("");
            }
            let vc = chars_of(value.as_str());
            let blank = trim_chars(&vc).len() == 0;
            if !(name.unicode_len() == 0 && blank) {
                put(&mut r, lit(name), Hue::Accent, true);
                if is_empty(&value) {
                    put(&mut r, lit("—"), Hue::Plain, false);
                } else {
                    put(&mut r, value, Hue::Plain, false);
                }
                put(&mut r, lit(""), Hue::Plain, false);
            }
            i += 1;
        }
        Some(r)
    }
}

impl App {
    /// The footer line.
    pub fn footer(&self) -> (r: Vec<Piece>)
        ensures
            pieces(r@) == footer_spec(*self),
    {
        let mut r: Vec<Piece> = Vec::new();
        assert(pieces(r@) =~= Seq::<(Seq<char>, Ink)>::empty());
        if self.mode == Mode::Logs && self.log_searching {
            put(&mut r, lit("log /"), Hue::Warn, true);
            put(&mut r, lit(self.log_filter.as_str()), Hue::Plain, false);
            put(&mut r, lit("▏"), Hue::Warn, false);
            assert(pieces(r@) =~= footer_spec(*self));
        } else if self.commanding {
            put(&mut r, lit(":"), Hue::Accent, true);
            put(&mut r, lit(self.command.as_str()), Hue::Plain, false);
            put(&mut r, lit("▏"), Hue::Accent, false);
            assert(pieces(r@) =~= footer_spec(*self));
        } else if self.filtering || !is_empty(&self.filter) {
            put(&mut r, lit("/"), Hue::Warn, true);
            put(&mut r, lit(self.filter.as_str()), Hue::Plain, false);
            put(&mut r, lit(if self.filtering { "▏" } else { "" }), Hue::Warn, false);
            assert(pieces(r@) =~= footer_spec(*self));
        } else if !is_empty(&self.status) {
            let warn = self.status.as_str().get_char(0) == '⚠';
            put(&mut r, lit(self.status.as_str()), if warn { Hue::Bad } else { Hue::Gray }, false);
            assert(pieces(r@) =~= footer_spec(*self));
        } else {
            put(&mut r, lit(view_hint(self.view)), Hue::Dim, false);
            assert(pieces(r@) =~= footer_spec(*self));
        }
        r
    }
}

} // verus!
