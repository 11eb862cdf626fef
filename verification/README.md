# tftp-rs

Sends and receives files over TFTP (RFC 1350, modes octet and netascii), with a window.
Between two copies of the program a transfer is checked with one BLAKE3 hash over all files;
with other clients and servers it is plain TFTP.

## Layout

`src/` is the library. It holds the decisions of the program as functions from plain values
to plain values, each with a contract that Verus proves:

| module | what it decides |
| --- | --- |
| `packet`, `error` | packets as bytes, and what an error says |
| `netascii` | text on the wire, in pieces of any size |
| `peer`, `wait` | addresses, waiting for a packet, failures of the system |
| `transfer`, `delivery` | the two sides of a transfer, block by block, and what holds of both together |
| `client` | what a client asks for, and when its request is granted |
| `server` | requests to a server and the transfers that run |
| `session` | the list of files, the hash over them, and the outcome of the check |
| `receive` | the receiving program, from the first packet to the clean-up |
| `folder`, `send` | the files of a folder, and the sending program |
| `paths` | which names may be read, written and received, and under which free name |
| `discover` | looking for devices on the network |
| `history`, `picker`, `window`, `display` | the state of the user interface and what it shows |
| `text`, `sort` | text, numbers and order |
| `outside` | everything that is believed and not proved |

Functions named `law_..` state what holds of several functions together.

`tests/` runs the library on concrete values, without sockets or files.

`app/` is the program around it: sockets, files, threads and drawing. It asks the library what
to do, does it, and reports what happened. Where a function of the library asks something of
plain values (an index, two lengths), `app/` tests it before the call. What is asked of the
library's own state (`wf`, `sound`, `fits`) holds of every state that the library hands out:
its contracts keep it, and the fields are private.

## Numbers

Times are nanoseconds on a clock that never goes back. Counts of bytes wrap at 2^64. A path
is known to the library by a number; equal paths have equal numbers.
