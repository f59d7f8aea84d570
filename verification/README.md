# bevy_spritesheet_animation

Spritesheet animations for Bevy, with the animation logic verified by Verus.

## Layout

- `src/` — the verified library:
  - `spritesheet`, `builder`: spritesheet grids and the animation builder (cells, rows,
    columns, strips, clip parameters, markers); every frame it adds is a cell of the sheet.
  - `clip`, `animation`, `easing`, `events`, `stage`: the animation data model.
  - `animator/cache`: flattens an animation into the frames of one repetition (clip
    repetitions, directions, ping-pong, durations, marker and end events).
  - `animator/iterator`: plays a cache frame by frame, with seeking.
  - `animator/instance`: per-entity playback: synchronisation with the requested progress,
    and time-driven advancing (frames that last 0 ms, as easing gives the first frame of a
    run, are passed as soon as time has passed).
  - `library`: a registry of clips, animations and markers with unique names.
  - `components`, `plugin`: plain data shared with the engine layer.
- `tests/` — scenario tests (builder, library, playback timing, directions, repetitions,
  markers, progress control) and tests of the library's laws on concrete values.
- `app/` — the Bevy layer: plugin, assets, components, messages, systems, easing curves and
  3D sprite rendering (floating-point and engine-bound code).
