# Snapbar

Snapbar copies the content that is shared in a Microsoft Teams meeting to the Windows clipboard.
The library decides; the program around it talks to Windows.

- `src/` is the library, verified with Verus. Every function states what it gives, over
  mathematical models of the data. The laws of the library are the public proof functions whose
  names begin with `law_`.
- `tests/` runs the library on concrete values.
- `app/` is the program: capture sessions, UI Automation, the clipboard, the log and the bar. It
  runs on Windows 11 and hands the library plain values.

| Module | What it decides |
| --- | --- |
| `geometry`, `ratio`, `numeric`, `single`, `text` | Rectangles, thresholds, numbers and texts |
| `accessibility`, `content`, `locator`, `layout` | Which element shows the shared content, and when that is confirmed |
| `source`, `session`, `copy`, `recovery`, `request` | How frames are cached, and which pixels answer a request |
| `output`, `screenshots` | What may be written, and under which name |
| `flash`, `flash_color` | The flash over captured content |
| `detector` | Content found in the pixels of a picture |
| `meeting` | Whether a meeting goes on, and whether something is shared |
| `bar` | What the bar shows and how it reacts |
| `diagnostics`, `assets`, `error` | The log, the icons and the errors |

Time is counted in nanoseconds of a monotonic clock. Work that waits for Windows is a state machine:
an action goes out, an event comes back.
