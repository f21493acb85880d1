# envc

Profile based environment variable management. A profile is a `.env` file;
`activate` applies one to the current shell, `deactivate` puts the replaced
values back, and `enable` picks the one that new shells load.

The library (`src/`) holds what there is to decide, written and proved in Verus:

| module | what it is about |
| --- | --- |
| `text`, `env` | characters, lines and numbers; sets of variables |
| `shell` | quoting, the code each shell evaluates, and how shells read it |
| `dotenv` | `.env` files: quotes, escapes, references, errors with line numbers |
| `stack` | the restore stack and its file |
| `startup`, `rc` | the startup choice; the hook in the shell's startup file |
| `user_env` | user-level variables on Windows |
| `profile`, `paths`, `palette`, `files` | names, places, colors, what was read |
| `activation`, `loading`, `manage`, `report`, `cli` | the commands |
| `laws` | what holds of all of it together |

Each command is a function from what was read to what is to be written and
said. The program in `app/` parses the command line, reads and writes the files
and prints.
