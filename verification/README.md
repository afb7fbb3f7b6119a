# bevy_timeline

Timeline animation for Bevy: animations are loaded from JSON documents,
played in sessions attached to an entity, and written onto the components of
the entities that their targets name. An editor moves the animated entities
with the keyboard and the mouse.

The crate is a Verus library; everything in `src/` is verified.

- `time`: times as the bit patterns of single precision numbers, their order,
  and binary search over keyframe times.
- `timeline`, `keyframe`, `value`: keyframes, the choice of the keyframes
  around a time and of the keyframe in effect, reading keyframe values
  (scale, rotation, translation) from JSON, and lists of value types written
  as nested pairs ending in `()`, such as `(Scale, (Rotation, (Translation, ())))`,
  where the first type named by a target reads its keyframes.
- `json`, `data`, `error`: the JSON model and the loader of animation
  documents, with each failure and where it comes from.
- `player`, `entries`: sessions, play options, pause and resume, steps that
  advance once and stop, and the player that finds sessions by name and
  defers plays of names not yet known.
- `tree`, `binding`, `text`: the entity tree, the entities that target paths
  bind to, and short type names.
- `editor`, `material`, `texture`: the transform control's decisions, marker
  picking, the always-on-top depth test and the debug texture pattern.

`app/` is the Bevy side, which is not verified: conversion from `serde_json`,
the asset loader, the plugin and its systems, the float arithmetic of
blending and play time, light and material value types, the editor's
systems and the sample scenes (among them the walking human).
