# fcalc

A terminal calculator over fold expressions: an operator followed by its
operands, such as `+ 1 2 3` or `× 2 5`, evaluated left to right. Variables
(`VAR name:value`, `DEL name`) and functions with named parameters
(`+ 2'x 3'y`) can be declared.

- `src/` is the verified library (Verus): reading expressions, functions and
  variable commands as exact decimal numerals, decoding terminal input into
  keys, the state machines of the line editor and the variable screens, and
  the layout arithmetic of redraws.
- `app/` is the program around it: the terminal in raw mode, reading bytes,
  drawing, the configuration file, and the floating-point evaluation.
- `tests/` runs the library on concrete inputs.
