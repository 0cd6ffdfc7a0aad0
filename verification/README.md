# bytebeat

Bytebeats are tiny reverse-Polish programs of the time `t` whose values,
truncated to bytes, are played as 8 kHz audio: `t t 8 >> *` is one.

`src/` is a Verus library with the language and the tools around it:

- `cmd`, `text`, `numbers`, `parse`, `format`: instructions, splitting and
  reading beat text, printing it back;
- `compile`, `eval`: the stack-depth analysis that accepts a program, and the
  evaluator (a program that compiles always produces a value);
- `classic`: the first form of the language, which checks the stack while
  evaluating instead;
- `unit`, `random`: bytebeat units and the random beat generator;
- `report`, `crash`: messages for rejected programs and fuzzer crash inputs;
- `encode`, `video`, `color`: encoder settings, PPM frames and the renderer
  of the scrolling waveform video;
- `roundtrip`: printing a program and reading the text back gives the program.

Floating point stays outside the library: the evaluator, parser and printer
take the double arithmetic, reading and printing as functions on bit patterns.

`app/` holds the command-line tools (`beat`, `bytebeat`, `encode`,
`crashdecoder`, `random`, `bot`), which read stdin, write files, run `ffmpeg`
and post to Twitter.
