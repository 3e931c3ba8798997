# typst_py

Python bindings to the typst compiler, with their decisions verified in Verus.

- `src/` is the verified library:
  - `output_template`: the output path templates `{p}`, `{0p}`, `{n}`, `{t}`;
  - `page_naming`: proofs that every page of a document gets its own path,
    and that zero-padded page paths sort in page order;
  - `decimal`: decimal and zero-padded page numbers, digit counts;
  - `diagnostics`: the details that errors and warnings report;
  - `pdf`: the PDF standards that Python names;
  - `compiler`: the inputs of a compiler, answers to compilations and
    queries, the export format (from its name or from the output path's
    extension), the elements a query answers with, and the paths that
    compiled pages are written to;
  - `text`, `error`: character sequences and the errors raised to Python.
- `app/` is the Python extension module (pyo3): the typst world that reads
  files and fonts from disk, compilation, export and queries, and the
  conversion of values to and from Python.
- `tests/` runs the library on concrete values.
