# coolercontrol_truenas_bridge

A CoolerControl device plugin that exposes TrueNAS disk temperatures as
temperature sources, with its rules written in Verus and proved.

- `src/` is the verified library:
  - `text.rs`: trimming, prefix and substring tests, ASCII-case comparison and
    the order of `String` keys, specified over `Seq<char>`.
  - `temps.rs`: `TempMap`, disk names mapped to readings, kept sorted by name
    without duplicates (the `BTreeMap<String, _>` of the plugin).
  - `config.rs`: the configuration, its defaults, and `finish_config`, which
    normalises and checks a configuration once it has been read.
  - `json.rs`: JSON values as the TrueNAS API exchanges them.
  - `truenas.rs`: the WebSocket URL, the requests, what each reply means, and
    the disk temperatures read out of a `disk.temperatures` result.
  - `service.rs`: the temperature cache with its poll interval and fail-safe
    temperature, the temperature sources of the device and their ids.
- `app/` is the program around it: command line, logging, configuration file,
  WebSocket I/O (tokio-tungstenite, native-tls) and the gRPC server (tonic).
  It needs the CoolerControl protocol definitions compiled by `tonic-prost-build`.
- `tests/` runs the library on concrete inputs.
