# Ferrus

A bootable-USB creator for Linux: a verified library and the programs around it.

- `src/` is the library, written in Verus, with contracts that say exactly what
  each part does: which plan an image gets, the steps of a plan, the commands
  that they run and the files that they name, the write engine's state, the boot
  store (a registry hive), virtual disk files, the helper's and the client's
  protocol state, and texts that are shown.
- `app/` is ordinary Rust: the window, the privileged helper and the headless
  tools. It performs what the library decides: it runs commands, mounts and
  copies, and speaks JSON over pipes. The answer files for Windows are not part
  of it: it copies them from `/usr/share/ferrus`.
- `tests/` runs the library on concrete values.

## Where to look

| Module | What it states |
| --- | --- |
| `bytes`, `hive`, `hive_key`, `hive_order`, `hive_store`, `hive_read`, `hive_time`, `bcd`, `bcd_laws` | registry hives and boot stores, and that a store reads back what was put in |
| `crc`, `vhdx`, `disk_image` | checksums and virtual disk files, byte for byte |
| `tree`, `iso`, `iso_laws` | what an image is and which plan it gets |
| `protocol`, `helper`, `client` | requests, responses and the two ends of a session |
| `flash`, `togo`, `execute`, `plan_laws` | the steps of every plan |
| `commands`, `format`, `partition`, `mounts`, `copy`, `assets` | the commands that steps run, and what is read from their output |
| `write` | writing and verifying an image chunk by chunk |
| `device`, `sizes`, `ui`, `cli` | devices, sizes in words, what the front ends decide and say |
| `text`, `paths` | text and paths |

## Environment

| Variable | Effect |
| --- | --- |
| `FERRUS_HELPER_PATH` | where the helper is (else beside the program) |
| `FERRUS_ALLOW_LOOP=1` | allow loop devices as targets |
| `FERRUS_UEFI_NTFS_IMG` | the uefi:ntfs bootloader image |
| `FERRUS_WIM_SPLIT_LIMIT` | split archives beyond so many bytes, into 1 MiB parts |
| `FERRUS_NO_PKEXEC=1` | start the helper directly |

## Headless tools

```sh
ferrus flash-dev /dev/sdX image.iso [--no-verify] [--plan KIND] [--persist MiB]
ferrus format-dev /dev/sdX FAT32 MYLABEL gpt 16384 fast
ferrus list-devices
```
