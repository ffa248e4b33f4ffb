# driver_updater

A Windows desktop tool that scans the hardware (WMI), looks for driver
updates through Windows Update (PowerShell), matches them to devices and
installs them.

- `src/` is the library, verified with Verus:
  - `text.rs`: trimming, substring search, code-point order, decimal text;
  - `hardware.rs`: device records, the skip rules, reading and showing driver dates, the
    assembly and ordering of the inventory;
  - `updater.rs`: update records, matching of updates to devices, size
    labels, install result codes, and the PowerShell scripts and outputs;
  - `session.rs`: the window's state and what each finished piece of
    background work does to it.
- `app/` is the program: the egui window, the WMI queries, the PowerShell
  processes and the JSON reading, all handing plain values to the library.
- `tests/` exercises the library on concrete values.
