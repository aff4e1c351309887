# Disbatch

Point Disbatch at a `.ps1`, `.bat` or `.cmd` script and it generates a form from
the script's parameters, analyses the script for risky behaviour, and runs it
inside an embedded terminal with a progress bar. Everything is local and offline.

The risk analyzer is heuristic. It is not antivirus: it surfaces what a script
can do, and holds the Run button back until warnings are acknowledged.

## Layout

- `src/` is the library: what the program decides and computes. It is written in
  Verus: every function states what it returns, and that is proved. Believed, not
  proved, is what the wrappers in `pattern`, `unicode`, `screen` and `emulator`
  and the specifications in `unicode` and `text` say of the regex crate, of the
  vt100 crate and of std; each says so where it stands.
  - `text`, `unicode`, `span`, `order`, `values`: texts and their parts, stable
    ordering, named values
  - `patterns`, `pattern`, `grammar`: the regular expressions and what they find
  - `scan`, `parser`, `psparse`: from a script to its controls
  - `analyzer`: risky capabilities
  - `binding`, `preview`, `controls`, `sidecar`: the mapper and what it stores
  - `command`: the command line of a run
  - `session`: the state of the program and its actions
  - `screen`, `terminal`, `emulator`: the terminal's screen, keys, queries and
    progress
- `app/` is the program around it: the window, files, processes and the
  pseudo-console.
- `tests/` runs the library on concrete values.

## How parameters map to controls

| PowerShell                         | Control          |
| ---------------------------------- | ---------------- |
| `[switch]$Recurse`                 | checkbox         |
| `[ValidateSet("A","B")][string]$X` | dropdown         |
| `[int]$Threads = 4`                | number field (4) |
| `[string]$InputFolder`             | folder picker    |
| `[string]$LogFile` / `...Path`     | file picker      |
| `[string]$Name`                    | text field       |
| `[Parameter(Mandatory)]`           | required *       |

## Progress protocol (opt-in)

```powershell
Write-Host "@progress 42"           # 0-100 -> progress bar
Write-Host "@status Copying files"  # -> status label
```

`DISBATCH_NO_AST=1` makes parameter detection use the pattern-based fallback
instead of PowerShell's own parser.
