# neophyte

The state and decision logic of a Neovim GUI, verified with Verus.

`src/` is the library. It holds:

- `ui/`: the UI state that Neovim's `redraw` events build up (`Ui::process`): grids and
  their cells (packed chars with an overflow list for longer text), windows and the draw
  order, highlights, modes, the external command line and messages; and the `guifont`
  option parser.
- `text/`: the glyph atlas (a binary tree of packed rectangles in a texture that doubles
  when full) and the glyph cache built on it; fonts read from their files with swash,
  font styles and metrics in pixels.
- `rendering/`: what the renderer decides without the GPU: the grids of a scroll
  animation, the runs of clusters shaped with one font, where glyphs, underlines, cell
  fills and messages go, the layout of the grid buffer, the search for the font that
  covers a cluster, highlight colors, where the cursor is and how it blinks.
- `rpc.rs` and `session.rs`: MessagePack-RPC messages over a model of MessagePack values,
  the numbering of requests and what the UI does with each message from Neovim.

`app/` holds what the library leaves out: the Neovim process and its pipes, MessagePack
encoding with rmpv, terminal colors with termcolor, glyph rendering with swash, and the
placement that needs floating point.
