# haddock

The verified core of Haddock, a desktop front end for the Sherlock username
search tool. The library (`src/`) is written in Verus and proved:

- `validation`: the checks on usernames, proxy URLs and site names, with the
  exact error messages, and the proof that accepted input holds none of
  ``; & | $ ` < > ( ) ' " \ * !``, line feed or carriage return (usernames
  keep `?`, which Sherlock expands; site names keep spaces, while usernames
  and proxies hold neither spaces nor tabs).
- `search`: the whole request check, Sherlock's command line, and the events
  sent when a search starts and ends.
- `output`: how each line Sherlock prints is read (found, not found, other),
  the counts kept, and the events sent; including when reading a line would
  slice inside a UTF-8 character, and what the progress reports of a whole
  run say.
- `tor`: Tor's command line, its bootstrap progress, and its outcome.
- `text`: white space, trimming, searching and decimal numbers over
  `Seq<char>` models, and the UTF-8 facts the rest needs.
- `models`: the events and options exchanged with the user interface.

`app/` holds the Tauri commands, process spawning and event emission around
the library.
