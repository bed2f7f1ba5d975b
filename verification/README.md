# disk-watch

A monitor for the health of Linux disks. It reads SMART reports of hard disks,
SSDs and NVMe disks through `smartctl`, follows the I/O errors that the kernel
reports, and keeps a verdict on each disk. A disk that passes SMART is not taken to
be well if the kernel says otherwise.

The rules are a library that is verified with Verus; the program around it does the
input and output.

- `src/text.rs`, `src/strmap.rs`, `src/json.rs`: strings, ordered maps and JSON
  documents with exact meanings.
- `src/config.rs`: the settings and their rules.
- `src/devices.rs`: the inventory of devices, and what makes two of them the same disk.
- `src/smart.rs`: SMART reports, from the output of `smartctl` to measurements.
- `src/kernel.rs`: journal records, what trouble they report and with which disk.
- `src/alert.rs`: what a new report says that the one before it did not.
- `src/state.rs`: what is remembered, the verdict on a disk, and the state file.
- `src/monitor.rs`: how scans and kernel records change what is remembered.
- `src/report.rs`, `src/notifier.rs`: what is printed and what the user is told.
- `src/laws.rs`: what holds of the library as a whole.
- `app/`: the command line, commands, files, the journal and the notifications.
- `tests/`: tests of the library.
