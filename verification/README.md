# dvb-rs

Tune, scan and programme guide for ISDB-T receivers on Linux.

`src/` is the library, verified with Verus. It does no input or output: what the
devices deliver goes in as bytes and events, and what is to be done next comes
out.

- `si_tables`, `eit`: sections of the service information and of the event
  tables, and their assembly from transport stream packets
- `si_reader`, `epg`, `guide_text`: collecting tables and events, and writing
  the guide out
- `arib_b24`, `arib_symbols`, `jis_plane2`: broadcast text to Unicode
- `channel`, `config`, `toml_doc`, `text_map`, `names`: channel lists
- `scan`: the channels of a transport, and merging them into a list
- `tuner`, `dtv_cmds`, `demux`, `frontend`, `signal`, `sys`, `px4`: what the
  devices are asked for
- `text`, `bytes`, `views`, `error`: what the others share

Each module states what its functions compute as spec functions over sequences
and maps. Proof functions whose names begin with `law_` state what holds of
several of them together.

`app/` is the program around the library: its arguments, the files and the
devices. `tests/` runs the library.
