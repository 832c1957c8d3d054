//! The status rows under the workspace: a decoded script or a failure in the footer, and on the
//! last row the note the user needs now, the armed quit, or else the working directory.
use vstd::prelude::*;

use crate::clip::Role;
use crate::text::{chars_of, string_of};
use crate::unicode::{display_width, width_of};

verus! {

/// What the footer shows.
#[derive(Debug)]
pub enum Footer {
    /// Lines a status script printed, decoded.
    Script { lines: Vec<String> },
    /// Why the status script failed.
    Failed(String),
    /// Nothing of its own.
    Default,
}

/// What the last row says.
#[derive(Clone, Copy, Debug, PartialEq, Eq, Structural)]
pub enum StatusNote {
    /// The first Ctrl-D was pressed; a second one quits.
    QuitArmed,
    /// Nothing pressing.
    Quiet,
}

/// One painted footer row: which row, how many columns it may use, and its text.
#[derive(Debug, PartialEq, Eq)]
pub struct ScriptRow {
    pub row: u16,
    pub width: u16,
    pub text: String,
}

/// What the status area paints, in its own coordinates.
#[derive(Debug, PartialEq, Eq)]
pub struct StatusRows {
    /// The script's rows that fit, muted.
    pub script: Vec<ScriptRow>,
    /// Whether an ellipsis goes in the last cell, because the script did not fit.
    pub ellipsis: bool,
    /// A failure painted over the area.
    pub failure: Option<String>,
    /// The last row, cleared first: a space and the note.
    pub note: Option<(String, Role)>,
}

/// A script row, as values.
pub open spec fn row_view(r: ScriptRow) -> (u16, u16, Seq<char>) {
    (r.row, r.width, r.text@)
}

/// Whether a script does not fit `width` by `height`: more lines than rows, or a shown line
/// wider than the area.
pub open spec fn script_clipped(lines: Seq<Seq<char>>, width: u16, height: u16) -> bool {
    lines.len() > height || exists|i: int| 0 <= i < lines.len() && i < height && #[trigger] display_width(lines[i]) > width
}

/// The script's rows: each shown line on its row, the last row one column narrower when the
/// script was cut, to leave room for the ellipsis.
pub open spec fn script_rows(lines: Seq<Seq<char>>, width: u16, height: u16) -> Seq<(u16, u16, Seq<char>)> {
    let shown = if lines.len() < height { lines.len() as int } else { height as int };
    let clipped = script_clipped(lines, width, height);
    Seq::new(
        shown as nat,
        |i: int|
            (
                i as u16,
                if clipped && i + 1 == height && width > 0 { (width - 1) as u16 } else { width },
                lines[i],
            ),
    )
}

/// The last row's note: the armed quit always; otherwise the working directory, but only while the
/// footer shows nothing of its own.
pub open spec fn note_of(footer_default: bool, note: StatusNote, directory: Option<Seq<char>>) -> Option<(Seq<char>, Role)> {
    match note {
        StatusNote::QuitArmed => Some((" press Ctrl-D again to quit"@, Role::ActionRequired)),
        StatusNote::Quiet => if footer_default {
            Some((" "@ + match directory { Some(d) => d, None => Seq::empty() }, Role::Muted))
        } else {
            None
        },
    }
}

/// The footer lines, as text.
pub open spec fn lines_view(lines: Seq<String>) -> Seq<Seq<char>> {
    lines.map_values(|l: String| l@)
}

/// Optional text, as values.
pub open spec fn text_view(text: Option<String>) -> Option<Seq<char>> {
    match text {
        Some(t) => Some(t@),
        None => None,
    }
}

/// What the status area `width` by `height` paints for `footer` and `note`, given the working
/// directory.
pub fn status_rows(footer: &Footer, note: StatusNote, directory: Option<&str>, width: u16, height: u16) -> (r:
    StatusRows)
    ensures
        match footer {
            Footer::Script { lines } => r.script@.map_values(|x: ScriptRow| row_view(x)) == script_rows(
                lines_view(lines@),
                width,
                height,
            ) && r.ellipsis == (script_clipped(lines_view(lines@), width, height) && width > 0
                && height > 0) && r.failure is None,
            Footer::Failed(error) => r.script@.len() == 0 && !r.ellipsis && text_view(r.failure) == Some(error@),
            Footer::Default => r.script@.len() == 0 && !r.ellipsis && r.failure is None,
        },
        match r.note {
            Some((text, role)) => note_of(footer is Default, note, match directory {
                Some(d) => Some(d@),
                None => None,
            }) == Some((text@, role)),
            None => note_of(footer is Default, note, match directory {
                Some(d) => Some(d@),
                None => None,
            }) is None,
        },
{
    let mut script: Vec<ScriptRow> = Vec::new();
    let mut ellipsis = false;
    let mut failure: Option<String> = None;
    match footer {
        Footer::Script { lines } => {
            let ghost lv = lines_view(lines@);
            let shown: usize = if lines.len() < height as usize { lines.len() } else { height as usize };
            let mut clipped = lines.len() > height as usize;
            let mut i: usize = 0;
            while i < shown
                invariant
                    i <= shown,
                    shown <= lines@.len(),
                    shown == if lines@.len() < height { lines@.len() as int } else { height as int },
                    lv == lines_view(lines@),
                    clipped == (lines@.len() > height || exists|j: int| 0 <= j < i && #[trigger] display_width(lv[j]) > width),
                decreases shown - i,
            {
                let w = width_of(chars_of(lines[i].as_str()).as_slice());
                if w > width as usize {
                    clipped = true;
                }
                proof {
                    assert(lv[i as int] == lines@[i as int]@);
                }
                i += 1;
            }
            proof {
                if script_clipped(lv, width, height) && !(lines@.len() > height) {
                    let j = choose|j: int| 0 <= j < lv.len() && j < height && #[trigger] display_width(lv[j]) > width;
                    assert(j < shown);
                }
            }
            let mut k: usize = 0;
            while k < shown
                invariant
                    k <= shown,
                    shown <= lines@.len(),
                    shown == if lines@.len() < height { lines@.len() as int } else { height as int },
                    lv == lines_view(lines@),
                    clipped == script_clipped(lv, width, height),
                    script@.map_values(|x: ScriptRow| row_view(x)) == script_rows(lv, width, height).take(k as int),
                decreases shown - k,
            {
                let last = k + 1 == height as usize;
                let row_width = if clipped && last && width > 0 { width - 1 } else { width };
                let ghost before = script@.map_values(|x: ScriptRow| row_view(x));
                script.push(ScriptRow { row: k as u16, width: row_width, text: string_of(chars_of(lines[k].as_str()).as_slice()) });
                proof {
                    assert(script_rows(lv, width, height).take(k + 1) =~= script_rows(lv, width, height).take(k as int).push(
                        script_rows(lv, width, height)[k as int],
                    ));
                    assert(script@.map_values(|x: ScriptRow| row_view(x)) =~= before.push(
                        (k as u16, row_width, lines@[k as int]@),
                    ));
                }
                k += 1;
            }
            assert(script_rows(lv, width, height).take(shown as int) =~= script_rows(lv, width, height));
            ellipsis = clipped && width > 0 && height > 0;
        },
        Footer::Failed(error) => {
            failure = Some(string_of(chars_of(error.as_str()).as_slice()));
        },
        Footer::Default => {},
    }
    let footer_default = match footer {
        Footer::Default => true,
        _ => false,
    };
    proof {
        reveal_strlit(" press Ctrl-D again to quit");
        reveal_strlit(" ");
    }
    let note_line: Option<(String, Role)> = match note {
        StatusNote::QuitArmed => Some((string_of(chars_of(" press Ctrl-D again to quit").as_slice()), Role::ActionRequired)),
        StatusNote::Quiet => if footer_default {
            let mut text = chars_of(" ");
            let ghost start = text@;
            let dir = match directory {
                Some(d) => chars_of(d),
                None => Vec::new(),
            };
            let mut i: usize = 0;
            while i < dir.len()
                invariant
                    i <= dir@.len(),
                    text@ == start + dir@.take(i as int),
                decreases dir@.len() - i,
            {
                text.push(dir[i]);
                i += 1;
                assert(text@ =~= start + dir@.take(i as int));
            }
            assert(dir@.take(dir@.len() as int) =~= dir@);
            Some((string_of(text.as_slice()), Role::Muted))
        } else {
            None
        },
    };
    StatusRows { script, ellipsis, failure, note: note_line }
}

} // verus!
