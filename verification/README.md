# judge_compile

Runs a compiler (gcc, mcs, fpc, javac or rustc), shows what it prints, and
writes its messages as JSON in one schema: a level (`error`, `warning`, `note`
or `help`), a place counted from zero, a message, a code, and details.

- `src/` is the library, verified with Verus: the grammars of the compilers'
  messages (`pattern`), a module for each compiler, the class that names a Java
  program (`java`, `source`), the steps of its build (`java_build`), and commands,
  transcripts and exit codes (`run`).
- `tests/` runs the library on concrete output.
- `app/` starts the programs and reads and writes the files. The name under
  which it is started tells the compiler: `judge-gcc-compile`,
  `judge-mcs-compile`, `judge-fpc-compile`, `judge-java-compile` or
  `judge-rust-compile`.

What a pattern matches is stated as a grammar next to the pattern and trusted of
the `regex` crate; everything that is made of a match is proved.
