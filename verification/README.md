# balance-enforcer

A small user-session daemon that keeps the per-channel volume of one pinned
audio output device at `left = 0.0, right = 1.0`: the built-in speakers with a
dead left driver. Other devices are untouched, because the daemon targets a
device by its ID rather than following the current default endpoint.

## Layout

`src/` is the verified library, the rules of the program:

- `level`: channel levels as single-precision bit patterns, and the drift test
  on them. The difference of two levels is rounded to the nearest representable
  value, ties to even, before it is compared with the tolerance.
- `audio`: the policy, the events, the errors and the trait that an audio
  backend implements.
- `watched`: a controller, the stop flag and the event channel behind a ghost
  record of every call that is made, in order, with its reply.
- `enforcer`: the reconcile pass and the event loop as a state machine. Their
  contracts say which calls are on the record afterwards: a burst of events
  leads to a single pass; the loop ends on the stop flag or a closed event
  channel.
- `laws`: what follows for every pass and every run.
- `config`, `document`: the config file, through the `toml` crate.
- `install`: picking the target device, the autostart entry, the status report.
- `windows_impl`, `utf16`: what the audio adapter makes of replies and
  notifications, how it binds to the device, and zero-terminated device IDs.
- `cli`, `logging`, `text`, `failure`: commands and exit codes, panic reports,
  numbers and trimmed lines, failures of the operating system.

Public proof functions named `law_..` state what holds across functions.

`app/` is the program around it: the command line, files, the registry, the
log and the Core Audio adapter.

`tests/` runs the library with a mock audio controller and with the real
outside crates.

## Use

```
balance-enforcer --install       # pick the device, write the autostart entry
balance-enforcer --uninstall     # remove the autostart entry, keep the config
balance-enforcer --retarget      # pick another device
balance-enforcer --status        # show config and autostart state
balance-enforcer                 # run the daemon
```

`--auto` takes the current default device without asking. An executable in the
directory of the installer package leaves the autostart entry to the package.
