# codexusage

Token-usage accounting for Codex session logs: daily, monthly and session reports, and a live
watch screen with a rolling burn rate and the account limits.

- `src/` is the library, written in Verus. Every function states its behaviour in `requires` and
  `ensures`; general properties are the public proof functions whose names start with `law_`.
- `app/` is the command-line program around it: arguments, files, notifications, the network, the
  terminal, prices and JSON.
- `tests/` runs the library on concrete values.

## Modules

| Module | Contents |
| --- | --- |
| `text`, `keyed`, `number` | Texts, maps ordered by text, number and currency formats |
| `calendar` | Instants, days, timezones, date filters |
| `paths`, `project`, `targets` | Session paths and identifiers, project filter, choice of session files |
| `session_log` | Log entries, lines, and scans that can be resumed |
| `model`, `summary`, `report`, `grand_total`, `room` | Usage, grouped summaries, reports, overflow checks |
| `table`, `report_view` | Table frames and rendered reports |
| `watch_events`, `watch_cache`, `watch_state`, `watch_builder`, `watch_loop` | What watch mode keeps and decides |
| `snapshot`, `watch_table`, `watch_layout`, `watch_graph`, `watch_screen` | What watch mode shows |
| `limits`, `limits_view` | Account limits |
| `cli` | What the command line asks for |

## Numbers that the library does not hold

Prices are floating-point numbers, so the library counts tokens and the program prices them. The
library holds an amount as whole cents, and the order of two costs as an integer.
