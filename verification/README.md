# compositor_overlay

The logic of a compositor overlay, verified with Verus.

An overlay is a small visual under a window's composition root. The system
compositor places it, redraws it and runs its opacity animation without the
application rendering a frame. The library in `src/` keeps what an overlay
remembers and decides what each request takes. It carries a request out as an
update of several steps, each of which asks one thing and waits for the answer.

| Module | Holds |
| --- | --- |
| `overlay` | the overlay, the updates, and what each answer makes of them |
| `operation` | commands, answers, and an update under way |
| `content` | images and solid colors, their checks, sizes and pixels |
| `destination` | where on an update surface content is written |
| `motion` | holds, fades and cycles, and the opacity each shows |
| `number` | comparison of IEEE 754 numbers by their bit patterns |
| `error` | why an update came to nothing, in words |
| `laws`, `size_laws`, `motion_laws` | what holds whatever the compositor answers |

`app/` carries the commands out on DirectComposition and does the arithmetic on
seconds, opacities and colors. `tests/` runs the library against a compositor
that answers, or fails, as told.
