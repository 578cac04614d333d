# keru

Keru is an experimental graphical user interface library. This crate holds
the parts of it that decide things, written in Verus with their contracts
proved:

- `keys`, `ids`, `fxhash`: node keys, sibling keys and key scopes.
- `nodes`, `navigation`: the node arena and tree (a node is found again by
  its key in later frames, and a key used twice in a frame makes twins),
  depth-first keyboard order, scroll targets.
- `hits`, `mouse_events`, `targets`, `sense`: which nodes a pointer press
  reaches, and the click, drag and scroll events of a frame.
- `ui`: focus, hover, keyboard navigation, screen-reader actions and the
  input queries (`is_clicked`, `is_dragged`, ...).
- `grid`: assigning grid children to cells.
- `layout_graph`: the dependencies between node sizes that the layout solver
  follows, and the collapse of `FitContent` sizes that have nothing to fit.
- `access`: the accessibility tree of a subtree, parent before children.
- `text`: what happens to a node's text object in a frame (created, replaced,
  updated, linked into the selection chain), for the text renderer to carry out.
- `podslab`: a slab of plain elements kept in one vector for GPU upload.
- `observer`, `changes`, `params`: change tracking and node parameters.

`app/` holds the window-side code that stays outside the proofs: floating
point hit testing and sizing, and the glue that feeds their results to the
library.
