# skateboard_slope

The verified core of a small 3D "slope" game steered by a tilting skateboard
controller, together with its level editor and a motion-log viewer.

`src/` is the library, proved with Verus:

- `random` — the linear congruential generator behind the game's randomness.
- `engine` — colors and their channels, keys, input events, the set of held
  keys, and the `System` and `GameObject` traits.
- `editor` — the level editor's objects and their identifiers.
- `shapes` — unit cube and plane topology and shapes built from them.
- `scene` — the painter's order in which a scene's triangles are drawn.
- `textures` — handles for loaded textures.
- `event_queue` — a first-in, first-out event queue.
- `frame` — the window loop's decisions: what each input event does, the
  frame-rate counter and the frame-rate cap.
- `protocol` — the backend's binary subscribe request and its line protocol.
- `motion` — replay of a recorded motion log.
- `model` — triangles of an indexed mesh.
- `segments` — the kind of each new track segment.

`app/` is the program around it: the window, drawing and all vector
arithmetic (which is floating point), networking and file reading. Its
`main` runs the game; the arguments `editor`, `simul` and `engine` run the
level editor, the motion-log viewer and the bare engine loop.
