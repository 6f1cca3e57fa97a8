# ethercat_parser

A parser for EtherCAT traffic captures, written in Verus: the decoding of
frames, datagrams, mailbox sub-frames and SDO transfers, the conversion of
process data through register templates, statistics, filtering, the capture
file formats and the generation of sample data are verified against their
contracts.

Layout:

- `src/` — the verified library.
  - `lib.rs` — the frame model (commands, mailbox types, datagrams, frames,
    templates, statistics) and its mathematical views.
  - `ethercat_parser.rs` — header and datagram decoding, AL error texts,
    statistics, the frame filter.
  - `pdo_converter.rs` — templates, their indexes, and PDO conversion.
  - `pipeline.rs` — processing one captured frame end to end, and the
    decisions of the parse loop.
  - `io_reader.rs` — pcap files, raw record files and the standard-input
    record stream.
  - `live_capture.rs` — capture filter, timestamps and the counters of a live
    capture.
  - `output.rs` — text renderings: timestamps, MAC addresses, table and CSV
    rows and their PDO field, summary lines.
  - `pretty.rs` — the pretty listing of frames, the pretty summary and the
    template preview, as lines of plain and coloured fragments.
  - `generator.rs` — sample frames and example templates.
  - `cli.rs` — command-line options and the filter built from them.
  - `text.rs` — decimal and hexadecimal renderings.
  - `laws.rs` — properties that relate several functions.
- `tests/` — tests run against the compiled library.
- `app/` — the command-line program: argument parsing, files, standard input,
  libpcap, JSON output and the rendering of floating-point values.
