# nt_sysdump

Lists the system calls of Windows `ntdll.dll` and `win32u.dll` images with
their syscall indices, read from an image file or from the modules loaded in a
process, by one of two methods: numbering the syscall stubs in order of their
addresses, or reading each index from its stub's code.

The library in `src/` is written in Verus.  Its functions carry contracts
that Verus proves, except six small trusted wrappers whose contracts are
taken as given: `names::string_from_utf8` (`String::from_utf8`),
`statics::table_size`, `statics::table_for_build` and `statics::table_syscalls`
(`phf::Map::len`, `phf::Map::get` and `phf::Map::entries`), and, for error texts, `decimal_text` and
`io_error_text` (the `Display` of `u32` and of `std::io::Error`).

Where `win32u.dll` is not loaded, the library answers with the step that
loads it (`Step::LoadWin32u`), which the program performs before listing it.

- `bytes`, `ptr`: little-endian reads and a bounded cursor over image bytes.
- `signature`: byte signatures with wildcards and target bytes, matching,
  searching and extracting values.
- `image`: PE headers, sections, version resource and export table.
- `file`, `memory`: the mapped layout of an image file; lookup of a module
  among the loaded ones.
- `images::ntdll`, `images::win32u`: the two extraction methods per image.
- `order`, `names`: the stable sort and de-duplication the methods use, and
  the `Zw`/`Nt` name handling.
- `statics`: indices from per-build tables held in `phf` maps.

`app/` is the command-line program: argument handling, file reading, and on
Windows the walk over the process's loaded modules.
