# gloss

The verified core of Gloss, a Windows reading assistant for English text:
select text anywhere, press the global shortcut, and get a Triage
explanation, a translation, and follow-up questions answered by ChatGPT.

`src/` is a Verus library. Every function in it carries a contract that
Verus proves:

| module | what it decides |
| --- | --- |
| `text` | string operations (`trim`, `replace`, `split_whitespace`, …) stated over `Seq<char>` |
| `json` | the JSON model the library reads, and member lookup |
| `prompts` | bundled prompt templates, loading an edited copy, rendering the system prompt and each action's runtime context |
| `responses` | server-sent-event framing, event parsing, the retry policy of a streamed request, error messages |
| `profile` | merging a model-proposed patch into the CEFR learner profile |
| `oauth` | the sign-in callback, token claims and refresh, PKCE and the authorization page |
| `network` | normalising the proxy setting |
| `settings` | settings defaults, update steps and their undo |
| `overlay` | action-menu and card geometry, one selection capture at a time |
| `selection` | when a captured selection must be re-read through the clipboard |
| `agent` | which selection an action uses, when a conversation updates the profile, the profile-update request |
| `diagnostics` | log lines |

Calls into other crates (`url`, `reqwest`, `serde_json`, `base64`, `sha2`,
`rand`) go through small trusted wrappers whose contracts either
state what the crate documents or name its result.

`app/` is the desktop shell around the library: files, network I/O, JSON
shapes, the window, the shortcut and Windows UI Automation. `tests/` runs the
library on concrete inputs.
