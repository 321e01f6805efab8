# dsh_shell

The decisions behind a desktop shell for `dsh web`, written in Verus: executable Rust whose
behaviour is stated in contracts and proved.

The shell starts the server of a web page, watches over it, and shows the page in a window. The page
talks back to it over a control channel on the loopback interface, which serves only requests that
carry the shell's token. Over that channel the page manages its background, its plugins, updates of
the shell, and hold-to-talk.

- `src/` is the library. It reads and answers requests, chooses ports and updates, checks installers,
  guards package names, and says at each point of a job, a download, a start or a speech session what
  is to be done next. It opens no file, socket or window.
- `app/` is the shell itself: windows, processes, sockets and files around the library. The page's
  script, `shell-panel.js`, is read from the directory `resources` beside the executable.
- `tests/` runs the library on values.

Calls into other crates stand behind small functions whose contracts are trusted: `serde_json` in
`src/json.rs`, `base64` in `src/encoding.rs`, `sha2` in `src/digest.rs`, `getrandom` in
`src/launch.rs`. The functions named `law_…` prove
properties of the whole: that nothing is served without the token, that no installer is moved into
place unless its bytes passed the check, that one job runs at a time and a download in flight is not
replaced, that what a speech session heard is handed out at most once. That no session is left
listening is shown of a model of the sessions, built on the steps that the library takes on their
slot: the shell has to tell a session to stop where a step says so.
