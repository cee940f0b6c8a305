# kirk

`kirk` runs Linux test suites on a target that is reached over a communication
channel: the local host, SSH, the serial console of a QEMU guest, or an LTX
agent behind a pair of FIFOs.

`src/` is the library, verified with Verus. It decides everything that can be
decided from plain values: how arguments are read and checked, how channels
are configured, which commands and frames are sent and what their replies
mean, which tests are selected, in which order they run, what is recorded for
them and what a session does until its end. Work that waits for something
outside is driven step by step: the library says what to do next and takes in
what came of it.

- `cli`: arguments, their validation, the setup of a session.
- `com`, `shell`, `ssh`, `qemu`, `ltx`: communication channels.
- `ltp`: runtest files, metadata, results of tests.
- `scheduler`: tests side by side and one by one, suites round by round.
- `session`: selection, restore, plan and end of a run.
- `events`, `results`, `data`, `dict`, `errors`: what the others share.
- `text`, `textmap`, `words`, `pattern`, `output`: text and command lines.

Doubles, such as times in seconds, are carried as the bits of an IEEE 754
double.

`app/` is the program: it parses the command line, opens files, processes and
connections, and follows what the library decides.

Public proof functions state laws of the library as a whole. What is taken
from other crates stands behind functions marked `external_body`, each with a
comment that names the function it calls and says what is believed of it.
