# fo76_fo4

A verified library of the record passes that carry Fallout 76 plugin records
over to Fallout 4: the pass that runs before the form-key mapper
(`Fo76Fo4Hook::pre_translate`) and the one that runs after it
(`Fo76Fo4Hook::post_translate`), with every step of each as a function of its
own. Records are modelled as a signature, a form key, an editor id and a list
of subrecord entries (`model.rs`); each step's contract states the record it
leaves as a spec function of the record it was given.

Layout:

- `src/` is the library, verified with Verus. Each module holds one family of
  steps (conditions, condition forms, lights, leveled lists, packages,
  quests, scenes, workshop recipes, ...); `hook.rs` composes them into the two
  passes; `laws.rs`, `marker_laws.rs` and the `law_` proof functions in the
  modules state what the steps keep across calls.
- `tests/` runs the library on concrete records.
- `app/` is the unverified shell: the run-wide condition-form catalog, the
  script payloads encoded as JSON, and the two passes with their
  preconditions checked before each call.

Floating-point values are held as their `f32` bit patterns; comparisons
follow IEEE-754 on those patterns (`floatbits.rs`).
