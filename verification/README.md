# world-backup

`world-backup` makes timestamped backups of a Minecraft server world, once or on a schedule.

`src/` is a library, verified with Verus, that makes the decisions: what a backup is called, what
goes into it, which older backups go, when the next one is due, and in which order all of this
happens. It does no input or output. `app/` is the program around it: it reads the command line,
performs the steps that the library asks for, and reports how each of them went.

## The library

- `path`: paths as sequences of components, their order, and sets of them.
- `text`, `order`, `time`: the texts, orders and points in time that the rest speaks of.
- `calendar`: what the digits of a date and time mean.
- `cli`: the options of the command line, and the configuration that they amount to.
- `artifact`: the names of backups, and the timestamps in them.
- `exclude`: the globs that keep files out of a backup.
- `snapshot`: where an entry of the world goes, and what it is called in an archive.
- `retention`: which older backups stay. `retention_laws`: what holds of that.
- `backup`: the configuration of a backup, compression levels, the check of the target directory.
- `job`: a backup as a sequence of steps. `job_laws`: what holds of every such sequence.
- `cron_text`, `interval`, `schedule`: when the next backup is due.
- `scheduler`: backups on a schedule as a sequence of steps, and what holds of them.
- `server_state`: whether the server appears to be running.
- `hooks`: how much is told while the program runs.

A backup runs as a `BackupJob`. `BackupJob::action` says what to do next, `BackupJob::step` takes
how that went, and `BackupJob::into_outcome` says what came of it all. Backups on a schedule run
through `scheduler::next_stage` in the same way.

Calls into other crates stand behind functions whose contracts are stated and not proved. Each says
so above its contract: `chrono` in `time` and `schedule`, `cron` in `schedule`, `humantime` in
`interval`, `globset` in `exclude`, `flate2` in `backup`.

## Local time

What local clocks show is the machine's own. The contracts hold for any time zone: they speak of
some offset from UTC of less than a day.
