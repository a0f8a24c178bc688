# Anna's Kobo

A small service for Kobo e-readers: search Anna's Archive and LibGen from the
Kobo's browser, download a book (through Anna's fast servers with a
membership key, else LibGen's mirrors), convert EPUBs to KEPUB, and hand the
book to Nickel, the Kobo's reader.

The decisions of the service are a verified library (`src/`): every function
states what it returns in its `requires`/`ensures` contract and Verus proves
it. The parts that touch the network, the disk, processes and threads are an
ordinary Rust program (`app/`) that calls the library.

| module | what it decides |
|---|---|
| `annas` | reading Anna's search pages, the browser check, the members' API |
| `libgen` | reading LibGen's result tables and its free download links |
| `slum` | the mirror list from open-slum.org, its ranking, the mirror cache |
| `web` | a search as a conversation: Anna's first, LibGen as the fallback |
| `jobs` | the download queue, the walk over the mirrors, file names |
| `requests` | routing, posted forms, background searches, served files |
| `pages` | the HTML pages |
| `config`, `kepub`, `nickel` | settings, KEPUB conversion and names, Nickel imports |
| `html`, `text` | documents as node lists; text on `char` sequences |

Parsing HTML (`scraper`), regular expressions (`regex`), form encoding
(`form_urlencoded`), HTML escaping (`html-escape`) and the EPUB to KEPUB
conversion (`kepub-rs`) are called through
small trusted wrappers whose contracts say what those crates do.
