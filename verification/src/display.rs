//! What the table and footer show that is decided without the terminal:
//! cell truncation, per-view key hints, and the tone of state cells.

use vstd::prelude::*;
use vstd::view::View as ViewOf;
use crate::docker::{View, Item, view_columns};
use crate::text::{chars_of, string_of, slice_chars, lower_chars, lowercase_of, contains_chars, has_substring};

verus! {

/// `text` when it fits in `width` characters; else its first `width - 1`
/// characters and an ellipsis.
pub open spec fn fit_spec(text: Seq<char>, width: nat) -> Seq<char> {
    if text.len() <= width {
        text
    } else {
        text.take(if width >= 1 {
            width - 1
        } else {
            0
        }) + seq!['…']
    }
}

/// Fit text to a column width, marking truncation with an ellipsis.
pub fn fit(text: &str, width: u16) -> (out: String)
    ensures
        out@ == fit_spec(text@, width as nat),
{
    let cs = chars_of(text);
    let w = width as usize;
    if cs.len() <= w {
        return string_of(&cs);
    }
    let keep = if w >= 1 {
        w - 1
    } else {
        0
    };
    let mut out = slice_chars(&cs, 0, keep);
    out.push('…');
    assert(out@ =~= fit_spec(text@, width as nat));
    string_of(&out)
}

/// Key hint shown in the footer for each view.
pub open spec fn view_hint_spec(view: View) -> &'static str {
    match view {
        View::Containers => "Enter logs · p peek · i inspect · t stats · a all/running · s stop · r restart · S start · e exec · x del · m mark · M all · U none · T invert",
        View::Images => "i inspect · x del · :prune · m mark · M all · U none · T invert",
        View::Services => "Enter tasks · l logs · i inspect · +/- scale",
        View::Nodes => "i inspect",
        View::Volumes => "i inspect · x del · Ctrl-r refresh sizes · m mark · M all · U none · T invert",
        View::Networks => "i inspect · x del · m mark · M all · U none · T invert",
        View::Compose => "Enter containers · p peek · i view compose file · e edit compose file",
        View::Contexts => "Enter switch context",
        View::ServiceTasks => "Esc back · l logs · i inspect",
        View::Stacks => "Enter tasks",
        View::StackTasks => "Esc back · Enter logs · i inspect",
    }
}

/// Contextual keybinding hint for the footer, per view.
pub fn view_hint(view: View) -> (r: &'static str)
    ensures
        r == view_hint_spec(view),
{
    match view {
        View::Containers => "Enter logs · p peek · i inspect · t stats · a all/running · s stop · r restart · S start · e exec · x del · m mark · M all · U none · T invert",
        View::Images => "i inspect · x del · :prune · m mark · M all · U none · T invert",
        View::Services => "Enter tasks · l logs · i inspect · +/- scale",
        View::Nodes => "i inspect",
        View::Volumes => "i inspect · x del · Ctrl-r refresh sizes · m mark · M all · U none · T invert",
        View::Networks => "i inspect · x del · m mark · M all · U none · T invert",
        View::Compose => "Enter containers · p peek · i view compose file · e edit compose file",
        View::Contexts => "Enter switch context",
        View::ServiceTasks => "Esc back · l logs · i inspect",
        View::Stacks => "Enter tasks",
        View::StackTasks => "Esc back · Enter logs · i inspect",
    }
}

/// How a state cell is colored: healthy, failed or transitional.
#[derive(Clone, Copy, Debug, PartialEq, Eq, Structural)]
pub enum Tone {
    Good,
    Bad,
    Warn,
}

/// Whether column `col` of `view` holds a state.
pub open spec fn is_state_column(view: View, col: nat) -> bool {
    (view == View::Containers && col == 3) || (view == View::Nodes && col == 2) || (view
        == View::ServiceTasks && col == 3) || (view == View::StackTasks && col == 4)
}

/// Tone of a state cell by the words its lower case contains.
pub open spec fn tone_spec(view: View, col: nat, v: Seq<char>) -> Option<Tone> {
    let l = lowercase_of(v);
    if !is_state_column(view, col) {
        None
    } else if has_substring(l, "running"@) || has_substring(l, "ready"@) || has_substring(l, "up"@) {
        Some(Tone::Good)
    } else if has_substring(l, "exit"@) || has_substring(l, "dead"@) || has_substring(l, "down"@)
        || has_substring(l, "fail"@) {
        Some(Tone::Bad)
    } else if has_substring(l, "paus"@) || has_substring(l, "restart"@) || has_substring(
        l,
        "pending"@,
    ) {
        Some(Tone::Warn)
    } else {
        None
    }
}

fn has_word(l: &[char], w: &str) -> (b: bool)
    ensures
        b == has_substring(l@, w@),
{
    let wc = chars_of(w);
    contains_chars(l, &wc)
}

/// Tone of the STATE-ish column's cell `v`, if it has one.
pub fn state_tone(view: View, col: usize, v: &str) -> (r: Option<Tone>)
    ensures
        r == tone_spec(view, col as nat, v@),
{
    let is_state = (view == View::Containers && col == 3) || (view == View::Nodes && col == 2) || (
    view == View::ServiceTasks && col == 3) || (view == View::StackTasks && col == 4);
    if !is_state {
        return None;
    }
    let l = lower_chars(v);
    if has_word(&l, "running") || has_word(&l, "ready") || has_word(&l, "up") {
        Some(Tone::Good)
    } else if has_word(&l, "exit") || has_word(&l, "dead") || has_word(&l, "down") || has_word(
        &l,
        "fail",
    ) {
        Some(Tone::Bad)
    } else if has_word(&l, "paus") || has_word(&l, "restart") || has_word(&l, "pending") {
        Some(Tone::Warn)
    } else {
        None
    }
}


/// Widest cell a column may take.
pub const COL_CAP: usize = 30;

/// The widest of `w` and the cells in column `c` of the non-header rows at
/// `vis`.
pub open spec fn widest(items: Seq<Item>, vis: Seq<usize>, c: int, w: nat) -> nat
    decreases vis.len(),
{
    if vis.len() == 0 {
        w
    } else {
        let r = widest(items, vis.drop_last(), c, w);
        let i = vis.last() as int;
        if i < items.len() && !items[i].header && c < items[i].cells@.len() && items[i].cells@[c]@.len() > r {
            items[i].cells@[c]@.len()
        } else {
            r
        }
    }
}

/// `x` kept between 1 and `COL_CAP`.
pub open spec fn clamp_width(x: nat) -> nat {
    if x < 1 {
        1
    } else if x > COL_CAP {
        COL_CAP as nat
    } else {
        x
    }
}

/// Column widths that show the shown rows in full: a 1-wide mark gutter,
/// then for each column the wider of its title and its cells (group
/// headers left out), kept between 1 and `COL_CAP`.
pub open spec fn widths_spec(view: View, items: Seq<Item>, vis: Seq<usize>) -> Seq<u16> {
    seq![1u16] + Seq::new(
        view_columns(view).len(),
        |c: int| clamp_width(widest(items, vis, c, view_columns(view)[c]@.len())) as u16,
    )
}

/// Column widths that show the shown rows `vis` in full.
pub fn natural_widths(view: View, items: &Vec<Item>, vis: &Vec<usize>) -> (r: Vec<u16>)
    ensures
        r@ == widths_spec(view, items@, vis@),
{
    let cols = view.columns();
    let mut r: Vec<u16> = vec![1u16];
    let mut c: usize = 0;
    while c < cols.len()
        invariant
            c <= cols@.len(),
            cols@ == view_columns(view),
            r@ == seq![1u16] + Seq::new(
                c as nat,
                |k: int| clamp_width(widest(items@, vis@, k, view_columns(view)[k]@.len())) as u16,
            ),
        decreases cols.len() - c,
    {
        let mut w: usize = cols[c].unicode_len();
        let mut k: usize = 0;
        while k < vis.len()
            invariant
                k <= vis@.len(),
                c < cols@.len(),
                cols@ == view_columns(view),
                w == widest(items@, vis@.take(k as int), c as int, view_columns(view)[c as int]@.len()),
            decreases vis.len() - k,
        {
            proof {
                assert(vis@.take(k + 1).drop_last() == vis@.take(k as int));
                assert(vis@.take(k + 1).last() == vis@[k as int]);
            }
            let i = vis[k];
            if i < items.len() && !items[i].header && c < items[i].cells.len() {
                let n = items[i].cells[c].as_str().unicode_len();
                if n > w {
                    w = n;
                }
            }
            k += 1;
        }
        assert(vis@.take(vis@.len() as int) == vis@);
        let x: u16 = if w < 1 {
            1
        } else if w > COL_CAP {
            COL_CAP as u16
        } else {
            w as u16
        };
        r.push(x);
        assert(r@ =~= seq![1u16] + Seq::new(
            (c + 1) as nat,
            |k: int| clamp_width(widest(items@, vis@, k, view_columns(view)[k]@.len())) as u16,
        ));
        c += 1;
    }
    r
}

/// The log lines on screen, `start..end` of `total` filtered lines, for a
/// window `height` lines high scrolled `scroll` lines back from the newest
/// (held at the oldest screenful).
pub fn log_window(total: usize, height: usize, scroll: usize) -> (r: (usize, usize))
    ensures
        ({
            let max_scroll = if total >= height {
                total - height
            } else {
                0
            };
            let back = if scroll < max_scroll {
                scroll as int
            } else {
                max_scroll
            };
            let end = total - back;
            &&& r.1 == end
            &&& r.0 == if end >= height {
                end - height
            } else {
                0
            }
        }),
{
    let max_scroll = if total >= height {
        total - height
    } else {
        0
    };
    let back = if scroll < max_scroll {
        scroll
    } else {
        max_scroll
    };
    let end = total - back;
    let start = if end >= height {
        end - height
    } else {
        0
    };
    (start, end)
}

/// The inspect lines on screen, `offset..end` of `len`, for a window
/// `height` lines high scrolled down `scroll` lines (held at the last
/// screenful).
pub fn inspect_window(len: usize, height: usize, scroll: usize) -> (r: (usize, usize))
    ensures
        ({
            let max_off = if len >= height {
                len - height
            } else {
                0
            };
            let off = if scroll < max_off {
                scroll as int
            } else {
                max_off
            };
            &&& r.0 == off
            &&& r.1 == if off + height < len {
                off + height
            } else {
                len as int
            }
        }),
{
    let max_off = if len >= height {
        len - height
    } else {
        0
    };
    let off = if scroll < max_off {
        scroll
    } else {
        max_off
    };
    let end = if off < len && height < len - off {
        off + height
    } else {
        len
    };
    (off, end)
}

/// A `w` by `h` box centred in the area at (`ax`, `ay`) of `aw` by `ah`,
/// shrunk to fit it: (x, y, width, height).
pub fn centered(ax: u16, ay: u16, aw: u16, ah: u16, w: u16, h: u16) -> (r: (u16, u16, u16, u16))
    requires
        ax + aw <= u16::MAX,
        ay + ah <= u16::MAX,
    ensures
        r.2 == if w < aw {
            w
        } else {
            aw
        },
        r.3 == if h < ah {
            h
        } else {
            ah
        },
        r.0 == ax + (aw - r.2) / 2,
        r.1 == ay + (ah - r.3) / 2,
{
    let w2 = if w < aw {
        w
    } else {
        aw
    };
    let h2 = if h < ah {
        h
    } else {
        ah
    };
    (ax + (aw - w2) / 2, ay + (ah - h2) / 2, w2, h2)
}

/// Sum of column widths.
pub open spec fn width_sum(ws: Seq<u16>) -> nat
    decreases ws.len(),
{
    if ws.len() == 0 {
        0
    } else {
        width_sum(ws.drop_last()) + ws.last() as nat
    }
}

/// Columns between the table's columns.
pub const GAP: u16 = 2;

/// Columns taken by the gaps between `n` columns.
pub open spec fn gaps(n: nat) -> nat {
    if n >= 1 {
        (GAP * (n - 1)) as nat
    } else {
        0
    }
}

/// Width of the table drawn off screen at its natural size: the columns
/// side by side with their gaps (held at the largest width a terminal
/// has), and at least the window's width.
pub open spec fn canvas_width_spec(ws: Seq<u16>, window: u16) -> u16 {
    let full = width_sum(ws) + gaps(ws.len());
    let capped = if full > u16::MAX {
        u16::MAX
    } else {
        full as u16
    };
    if capped < window {
        window
    } else {
        capped
    }
}

/// Width of the off-screen table for column widths `ws` in a window
/// `window` columns wide.
pub fn canvas_width(ws: &Vec<u16>, window: u16) -> (r: u16)
    requires
        width_sum(ws@) <= u16::MAX,
        gaps(ws@.len()) <= u16::MAX,
    ensures
        r == canvas_width_spec(ws@, window),
{
    let mut sum: u16 = 0;
    let mut i: usize = 0;
    while i < ws.len()
        invariant
            i <= ws@.len(),
            sum == width_sum(ws@.take(i as int)),
            width_sum(ws@) <= u16::MAX,
        decreases ws.len() - i,
    {
        proof {
            assert(ws@.take(i + 1).drop_last() == ws@.take(i as int));
            lemma_width_sum_prefix(ws@, (i + 1) as int);
        }
        sum = sum + ws[i];
        i += 1;
    }
    assert(ws@.take(ws@.len() as int) == ws@);
    let g: u16 = if ws.len() >= 1 {
        GAP * ((ws.len() - 1) as u16)
    } else {
        0
    };
    let full = sum.saturating_add(g);
    if full < window {
        window
    } else {
        full
    }
}

proof fn lemma_width_sum_prefix(ws: Seq<u16>, k: int)
    requires
        0 <= k <= ws.len(),
    ensures
        width_sum(ws.take(k)) <= width_sum(ws),
    decreases ws.len(),
{
    if k < ws.len() {
        assert(ws.drop_last().take(k) == ws.take(k));
        lemma_width_sum_prefix(ws.drop_last(), k);
    } else {
        assert(ws.take(k) == ws);
    }
}

/// First canvas column shown: the sideways scroll, kept to 16 bits, held
/// where the canvas's right edge meets the window's.
pub open spec fn scroll_x_spec(hscroll: usize, canvas: u16, window: u16) -> u16 {
    let max = if canvas >= window {
        (canvas - window) as u16
    } else {
        0
    };
    if (hscroll as u16) < max {
        hscroll as u16
    } else {
        max
    }
}

/// First canvas column shown for sideways scroll `hscroll`.
pub fn scroll_x(hscroll: usize, canvas: u16, window: u16) -> (r: u16)
    ensures
        r == scroll_x_spec(hscroll, canvas, window),
{
    let max = canvas.saturating_sub(window);
    let h = hscroll as u16;
    if h < max {
        h
    } else {
        max
    }
}

} // verus!
