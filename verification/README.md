# ue_trim

Trims an Unreal Engine source tree: removes the platforms you do not keep,
caches, history, templates and, on request, test binaries and debug symbols.
By default it only lists what it would remove.

    ue-trim <engine root> --platforms Windows,Linux,Android,IOS [--execute]
            [--keep-git] [--keep-intermediate] [--remove-tests] [--strip-pdb]

## Layout

- `src/` — the verified library (Verus):
  - `text.rs`: ASCII case folding, Unicode white space, trimming, comma lists;
  - `platforms.rs`: the platform table, name normalisation, which platforms and
    folder names a run removes;
  - `args.rs`: the command line;
  - `plan.rs`: the ordered steps of a run, and the laws about them;
  - `tree.rs`: selections made on a snapshot of a directory tree (sizes,
    platform folders, `.pdb` files, test directories);
  - `stats.rs`: the counters of a run;
  - `size.rs`: sizes for people, rounded as a double quotient is.
- `app/main.rs` — the program: reads the disk, asks the library, removes and reports.
- `tests/` — tests of the library.
