# xcount

Follower and following counts for X (Twitter) accounts.

`src/` is the verified library: username and path checks, the reading of
profile pages (the statistics block of the inline script, the old JSON-LD
schema, the old interaction-counter `div`s), the decisions of a run over many
usernames (order, waiting, time estimate, which results are kept), the output
file's name and its `yyyy-mm-dd-hh:mm` stamp. `app/` is the command line
around it: argument parsing, HTTP requests, sleeping, and writing JSON, CSV or
Excel files.
