# Crypt

Crypt packs files and folders into one container, compressed with Zstandard at
the maximum level and encrypted with AES-256-GCM. The key is derived from a
password with Argon2id.

`src/` is the library, verified with Verus: the container format, the cutting
of the packed stream into chunks, their sealing and opening, the order in which
they are written, the naming rules, the prompts. `app/` is the program around
it: terminal, files, threads and the archive. `tests/` runs the library.

## The container

| Part          | Bytes | Contents                                            |
|---------------|-------|-----------------------------------------------------|
| magic         | 4     | `CRPT`                                              |
| version       | 2     | 1                                                   |
| salt          | 32    | for Argon2id                                        |
| header length | 2     | of the sealed header                                |
| header        |       | sealed: `D` or `F`, length of the name (2), name    |
| records       |       | length of the compressed chunk (4), sealed chunk    |
| end           | 4     | a length of zero                                    |

What is sealed is a nonce of 12 bytes, the ciphertext, and a tag of 16 bytes.
Numbers are little-endian. A chunk is 16 MiB of the packed stream, the last one
what is left.

## What is proved

Each function states what it returns; where that rests with the operating
system, the machine or the clock, it states what holds in every case.
`src/laws.rs` states what holds of the
whole: what is unpacked is what was packed, however the reads fall and in
whatever order the workers finish. The calls into other crates are trusted with
the contracts written at them; whether a sealed message can be opened without
the key is outside of what is stated.

The number of processors decides the number of Argon2id lanes, so a container
is opened on a machine that reports as many as the one that made it.
