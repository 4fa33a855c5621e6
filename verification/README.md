# lance_reader

Reading of Lance data files, verified with Verus.

A data file holds record batches. Each column of a batch is stored in pages, and a page table says
where every page lies. The library in `src/` decides what to read, in which order, and how the
pages become an Arrow record batch. It does no input or output: `FileReader::read_batch` and
`BatchRead::resume` hand out requests for pages and take in the arrays that storage replies.
The crate in `app/` runs this loop asynchronously over an object store.

| Module | What it holds |
| --- | --- |
| `schema`, `format` | fields and schemas; metadata, manifest and page table of a file |
| `manifest` | finding the manifest in the tail of its file |
| `open` | the steps of opening a file |
| `reader` | `FileReader` and the stream of its batches |
| `batch` | reading one batch, page by page |
| `row_id` | row ids |
| `walk` | what reading comes to, as a function of the replies of storage |
| `machine`, `made` | the steps of reading, and that columns are what their pages hold |
| `fits` | when reading a batch succeeds, in terms of its pages |
| `laws` | what holds of reading as a whole |
| `arrow` | what is trusted of the Arrow crates |

`chrono` is not used directly; it is held to a version that `arrow-arith` builds with.
