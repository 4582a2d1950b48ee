# burn_dragon_vision

Verified planning, data handling and bookkeeping for training vision models: rollout schedules,
image data sets and their augmentation, teacher features, distillation, recurrent
autoencoder-classifier (RAC) training, linear probes and serving.

`src/` is the library. Every function states what it returns in `ensures`, and Verus proves it, but
for the few calls into other crates that are named below.

- Numbers: `scalar`, `binary32` (single-precision arithmetic on bit patterns), `numeric`, `ordered`,
  `text`.
- Rollouts: `rollout`, `trajectory`, `frames`.
- Images: `pixels`, `augment`, `picture`, `bitmap`, `image_cache`, `loader`, `samples`, `balance`,
  `cifar`, `imagenet`, `dataset`.
- Teachers: `metadata`, `features`, `stores`, `distill`, `distill_runtime`.
- Models: `input_projection`, `views`, `reconstruction`, `rac`.
- Runs: `config`, `artifact`, `train`, `probe`, `serving`.

Floats appear in the library as their bit patterns (`Single`, `Double`). Measured values enter
reports as text. Functions whose name begins with `law_` state what holds across several functions.

What is believed without proof stands next to its callers, each item with a comment that says what
it claims: random draws and shuffles of `rand`, JSON access of `serde_json`, and pixel operations
of `image`.

`app/` is plain Rust around the library: files, downloads, tensors and floating point.
`tests/` runs the library on concrete values.
