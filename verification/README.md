# p2p_storage

A peer-to-peer file storage service paid in bitcoin. A client encrypts a file,
pays a storage provider and uploads the file to it; later it downloads the file
back and checks it against the hash it recorded. A coordinator keeps the list of
providers and hands one out to each client that asks.

`src/` is the verified library (Verus):

- `text`: words split on ASCII whitespace, decimal numerals and their parsing.
- `protocol`: the wire messages between clients, providers and the coordinator,
  how each is written and read back.
- `registry`: the coordinator's provider list and its random choices.
- `files`: a client's records of its uploads.
- `storage`: the files a provider keeps, and how it answers requests.
- `client`: the client's decisions around an upload.
- `digest`: SHA-256 content hashes.
- `cipher`: XChaCha20-Poly1305 encryption of file contents and its secrets.
- `wallet`: prices, wallet descriptors and recipient scripts (bdk).

`app/` holds the programs around it: terminal, network, files, secrets vault and
the Bitcoin wallet's network side.
