# openchain_selectors

Handling and identifying function, event and error selectors with the OpenChain
signature database: looking signatures up by selector, showing calldata, reading
signatures from what a user types, and uploading signatures.

The library under `src/` is verified with Verus. It makes no requests: it decides
what to ask for and reads the answers. `app/` makes the requests and reads the
artifact files.

| module       | contents                                                          |
|--------------|-------------------------------------------------------------------|
| `client`     | when a connection counts as spurious                              |
| `lookup`     | which request looks selectors up, and what its answer says        |
| `calldata`   | the function that calldata calls, and calldata in readable form   |
| `import`     | what to upload, and the report on an upload                       |
| `signatures` | signatures and artifact files among the tokens of a user          |
| `error`      | what can be refused, with the message for each                    |
| `text`       | text by characters and by bytes, words and numerals               |
| `outside`    | the calls into other crates and the standard library, on trust    |

Proof functions whose names begin with `law_` state what holds across several
functions.
