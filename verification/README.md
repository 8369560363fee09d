# upload-symbols

upload-symbols uploads symbols files to the Mozilla Symbols Server. The library in `src/` is
everything that an upload decides and computes, verified with Verus; the program in `app/` reads
files, sends requests and asks the library what to do next.

## Usage

Set `SYMBOLS_AUTH_TOKEN` to an authentication token with upload permissions, put the symbols files
below one directory under paths of the form `<debug_filename>/<debug_id>/<symbol_filename>`, and
run

```bash
upload-symbols my/upload/directory
```

Other files in the directory are not uploaded, and are reported at the end.

Under the name `download-symbols`, the program downloads the files of earlier uploads instead, which
makes test data.

## Layout

- `client`, `base`, `version`: configuring a client, the heads of its requests, and when a request
  is repeated.
- `sym_files`, `paths`: which files of a directory are symbols files, and under which keys.
- `v1`: archives of symbols files. `v2`, `gcs`, `digest`, `pool`: batches of symbols files, and
  uploads of single files in chunks.
- `summary`, `keys`, `error`: what became of each file.
- `fake_tecken`: a symbols server for tests, without the network around it.
- `download`, `telemetry`, `tempdir`: downloading test data, reporting, and temporary directories.
- `text`, `decimal`, `hex`, `urls`: text and numbers in headers, and URLs.

Public proof functions whose names start with `law_` state what holds across functions: that
retries are bounded, that a file arrives in one piece, that every file is accounted for.
