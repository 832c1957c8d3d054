# plexmaton_tui

Part of the presentation logic of the Plexmaton terminal workspace, written in Verus: the
reduction of agent, transcript, tool, server tool, mail, task, usage and attention events into a
projection, with its sequence and revision rules and the approval card it opens; one agent's
transcript with per-item revisions and the tool lifecycle; what the agent is doing now and the
activity line that shows it; the routing of terminal input to typed intents, focus, and the plan
of a frame (paint order, focus and cursor owner, the too-small notice); the Drawer, the command
palette and the permission review page; the composer's grammar, catalogs and menu; the approval
card and attention queue; the conversation tree with its rename and retire prompts, its panel and
the text of its rows; the status rows and the two-press quit guard; and the geometry of what is
drawn (regions, panel frames and borders, the effort rail with its labels and caption, readings
and clipped text). The painting itself, terminal events and timing stay outside the library. Each
function states its behaviour as a `requires`/`ensures` contract over mathematical models (`Seq`, `Set`, `int`), and Verus
proves the code against it. Properties that span several calls are stated and proved as public
proof functions whose names start with `law_`.

## Layout

- `src/` — the verified library. `lib.rs` lists the modules; each starts with a comment saying
  what it holds. Calls into `unicode-segmentation`, `unicode-width`, the layout solver and block
  insets of `ratatui`
  and a few `std` functions stand behind small functions whose contracts Verus takes on trust,
  each documented where it is declared.
- `tests/` — ordinary Rust tests of the library on concrete values.
- `app/` — the terminal edge: terminal events converted into the library's vocabulary, painting
  with `ratatui`, the error and wire forms that carry `thiserror` and `serde` derives, and the
  launch greeting's floating-point motion.

## Checking

Verus verifies `src/` as one crate; the tests run against the compiled library with the real
outside crates linked.
