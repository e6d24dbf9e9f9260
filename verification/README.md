# mcd

A decompiler for Connect IQ (`.prg`) programs, with a terminal viewer.

The library (`src/`) is verified with Verus:

- `binary_reader`, `parser`, `sections/`: the big-endian reader and the
  parser of the program image and its sections;
- `addressed_container`: instructions kept by address;
- `sorted_table`, `ordered_set`: association lists with increasing keys, and
  the members and entries of `BTreeSet`s and `BTreeMap`s in key order;
- `opcodes`: decoding of bytecode instructions;
- `disassembler`: basic blocks and their terminators;
- `ssa`, `ssa_text`: simulation of the stack machine into SSA form, and its text;
- `analysis`: functions found through the classes of the data section, the
  symbol database, and the lazily computed intermediate languages;
- `arrows`, `listing`: the layout of jump arrows and the text of a listing;
- `debug_text`: instructions, operands and errors as `Debug` writes them;
- `text`, `traits`: numbers and escapes as text, words and white space, and
  the traits through which the listing reads any intermediate language;
- `navigation`, `viewer`, `sdk`: the decisions of the viewer (selection,
  filtering, labels, the address typed in, the SDK whose API database is used).

`app/` holds the terminal user interface, file access and the command line.
