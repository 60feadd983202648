# lyrsync

A tool that fetches, converts and embeds synchronized lyrics, with its logic verified by Verus.

- `src/` is the library. It reads artist and title out of tags, file names and queries, renders
  timed lyrics as LRC or word-by-word eLRC, shifts timestamps, decides where lyrics come from and
  where they go, finds the audio file that a name belongs to, walks directory trees, and edits the
  tags of an audio file that is held in memory. Every function states what it does, and Verus
  proves it. The modules whose names end in `_laws` prove what holds across several functions.
- `src/tag_store.rs` is the boundary to `lofty`: its contracts are trusted. So are those of the
  three functions of the standard library at the top of `src/text.rs`.
- `app/` is the program around the library: options, files, the lyrics service, and the
  floating-point seconds in which lyrics come.
- `tests/` runs the library on concrete values.

Times are in whole hundredths of a second throughout the library.

## How a job runs

The library does no input or output. A `Job` in `src/jobs.rs` says in its `stage` what is to be
done next; the program does it and reports back with the method that belongs to the stage, until
the stage is `Done`. A `Walk` in `src/walk.rs` works the same way: it says which directory to list
next and takes the listing in.
