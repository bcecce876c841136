# bdemu

The verified core of a Blu-ray drive emulator: it answers SCSI generic
(`SG_IO`) requests from captured drive and disc profiles, serves a small
control protocol for loading and ejecting discs, and captures new disc
fixtures from real drives.

`src/` is the library, verified with Verus:

- `sg` — the `sg_io_hdr_t` request model and how a response, a residual and
  a CHECK CONDITION are written into it.
- `scsi` — the MMC/SPC command handlers, stated as `scsi_outcome`;
  `scsi_laws` — what holds across commands (unit attention, REQUEST SENSE,
  the NewMedia event).
- `profile`, `profile_text`, `drive_toml`, `profile_build`, `disc_dir` — the
  BDSM sector-map format, the text forms of profile fields, `drive.toml`,
  assembling a profile from its blobs, and choosing a disc directory without
  leaving the discs directory.
- `capture` — chunked reading, the BDSM table a capture writes, fixture
  completeness and directory naming; `bdsm_laws` — a written BDSM reads back.
- `control`, `cli`, `socket_name`, `sanitize`, `text` — the control protocol
  on both ends, the command line's decisions, the socket naming policy, and
  terminal-safe text.

`app/` is the program around it: the `bdemu` command line, the LD_PRELOAD
`ioctl` interposer, the control-socket listener, and everything that touches
files, sockets, processes and the drive.
