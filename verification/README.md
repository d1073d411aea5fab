# transformer

Surrogate models for numeric data: a small encoder-decoder transformer, an MLP
or a KAN learns a table of inputs and outputs, is checked on validation rows,
and is measured on the test rows once.

The library in `src/` is verified with Verus. It holds what decides and what
can be stated exactly:

- the `.tnum` format (`tnum/`): tokens, header, values, writer, and the proof
  that reading undoes writing;
- datasets, trained ranges, vocabularies and text windows (`data`);
- the layers and passes of the models (`encoders`, `stack`, `heads`);
- identities of datasets and models (`fingerprint`), the bytes of which
  determine what they stand for;
- the life of a candidate (`lifecycle`): checked first, measured once;
- searches, learning curves and diagnostics (`sweep`, `epoch_sweep`,
  `diagnostics`), the interpretation profile (`interpret`), text generation
  (`generate`);
- workbooks with predictions (`batch_predict`) and whole-file replacement
  (`atomic_write`);
- the window (`gui/`): forms, the state of a session and how each event
  changes it, the decisions of the worker, and every page as data.

Single-precision numbers are held by their bits (`single`): the library
compares and classifies them, and leaves arithmetic to its callers.

`app/` is ordinary Rust around the library: the window that draws the pages,
the worker thread, files, and float arithmetic. The trainer itself is behind
the traits of `app/engine.rs`.

`tests/` runs the library with the crates that it calls.
