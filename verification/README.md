# rustscan

Works out which addresses a port scan is to visit.

A target is an address, a network, a host name, or a file that lists such texts line by
line. Networks are expanded, host names are looked up, duplicates are dropped, and so is
everything that the user excluded. The result comes whole or as a stream of chunks of
bounded size.

`src/` is the verified library. It does no input or output itself: where a name has to be
looked up or a file read, it says so, and goes on from the recorded outcome.

- `ip`: addresses and networks as numbers
- `text`: lines, separators, white space
- `lookup`: which lookup a name needs, and what the answers amount to
- `address`: targets and exclusions, all at once
- `select`: duplicates and exclusions
- `chunk`, `stream`: the same in chunks
- `walk`: going over addresses one at a time
- `resolver`: which name servers to ask
- `input`: the options
- `bindings`: the calls into other crates, with what is taken for granted of them
- `laws`: what holds of the library as a whole

`app/` makes the lookups, reads the files and speaks to the user.
