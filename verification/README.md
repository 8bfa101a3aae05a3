# markbook

The gradebook sidecar of MarkBook: it reads the files of the legacy MarkBook
gradebook and applies the rules of the gradebook's requests. The library in
`src/` is written in Verus; each public function states its behaviour in
`requires`/`ensures`, and the laws that relate several functions are proof
functions named `law_*`.

Layout of `src/`:

- `text`, `assoc`, `num`, `csv`, `lines`: text, association lists, numbers,
  CSV records and the line reader that the file formats share.
- `legacy`, `marks`, `bnk`, `folder`: the legacy file formats (class files,
  mark files, notes, attendance, seating, remarks, comment indexes and banks,
  textbooks, class codes, report exports) and which file of a class folder
  holds what.
- `keys`, `merge`, `pairing`, `reorder`: matching records of different
  origins, merging a legacy class into an existing one, pairing per-student
  file entries with students, and the reorder rules.
- `integrations`, `exchange`, `package`: SIS roster files and transfer
  packages (their CSV entries, the format check of the index entry, the
  comment sets and the mark set codes), with their read-back laws.
- `setup`, `params`, `marksets`, `students`, `seating`, `course`, `planner`,
  `lessons`:
  the request rules of the settings, mark sets, students, seating plans and
  the course planner.
- `ipc`: which handlers answer a request method.

`app/` holds what the library leaves to its caller. Its JSON-lines loop on
standard input and output opens no workspace database, so it answers each
known method as the handlers answer without one. Beside the loop stand
readers that are not wired to a method yet: the file-system access of a
legacy class folder, the zip archive of a transfer package, and the rules
on floating-point marks and weights, each handing its texts to the
library. `tests/` holds the tests.
