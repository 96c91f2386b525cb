# plojo

A stenography translator: strokes from a steno machine (or the keyboard, or the standard input)
are looked up in dictionaries and turned into commands that type text or press keys.

The library in `src/` is written in Verus, and its behaviour is stated in `requires`/`ensures`
contracts that Verus proves.

- `base`: strokes, commands and keys, and the interfaces of translators, controllers and machines.
- `standard`: the standard translator (dictionary loading, greedy lookup with suffix folding,
  rendering of text with spacing and capitalization, and the diff that turns the change of the
  translations into commands), with its undo.
- `legacy`: the first generation of the translator, with its translation state and dispatcher.
- `orthography`: the spelling rules applied when a suffix is attached to a word.
- `geminipr`, `input_keyboard`, `input_stdin`, `serial_ports`: reading strokes.
- `output_enigo`, `output_macos`, `output_autopilot`, `applescript`: the keyboard actions that
  carry out commands.
- `plover`, `json_text`: converting the keyboard shortcuts of Plover dictionaries into command
  entries, written as JSON text.
- `lookup`: finding the strokes of a translation.
- `telemetry`: reading the stroke log and counting strokes and pairs of strokes.
- `pattern`, `json`, `text`: regular expressions (`regex`), JSON (`serde_json`) and text helpers.

`app/` is the command line program around the library: reading machines and files, simulating
the keyboard, printing. `tests/` runs the library on concrete inputs.

Left out:

- carrying out the plans of the first generation's keyboard controller (`legacy::controller`)
  and of the `autopilot` controller (`output_autopilot`): the first generation has no program
  here, and the `autopilot` crate cannot be had, so `app/` offers neither as an output;
- the dictionary loader of the first generation, which no module declared any more and which
  used types that no longer exist;
- the settings file of the command line program: the module that read it is not part of these
  sources, so `app/` reads every JSON file in the dictionary directory and uses no retrospective
  space strokes;
- the keyboard listener (`rdev` does not build here) and the native macOS output (its crates
  are macOS only): the decisions of both are in `input_keyboard` and `output_macos`.
