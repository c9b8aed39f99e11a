# ftp_client

An interactive client for a small line-oriented file-transfer server, built
around a library whose logic is verified with Verus.

- `src/` is the library. Requests are framed as ASCII plus a carriage return
  and announced by their decimal length (`frame`); the server's size and
  acknowledgement replies are decoded from a fixed 8-byte buffer (`reply`);
  texts and files are received read by read (`transfer`); the upload
  announcement, the remote listing and the download are state machines that
  hand out the actions to perform (`exchange`); the remote listing is parsed
  into entries (`listing`). The modules `laws`, `listing_law` and
  `exchange_law` prove how these fit together, for instance that a download
  from a cooperating server writes exactly the bytes the server delivered.
- `app/` connects to the server, reads commands from the terminal, performs
  the actions the exchanges ask for, and prints with `console`.
- `tests/` exercises the library on concrete values; the listing parser is
  compared with the regular expressions it implements.
