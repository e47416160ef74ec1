# sidereon_nav

Reading and writing of RINEX 2, 3 and 4 navigation files, and selection among the broadcast
records they carry, verified with Verus.

* `file`, `body`, `header`, `marker`, `fields` read a file: every line belongs to the header or to
  one block, and a block that cannot be read never moves another.
* `keplerian`, `cnav`, `glonass`, `geo`, `frames` decode the blocks.
* `write`, `lines`, `format`, `instant` write files; a file read and written unchanged comes back
  byte for byte.
* `reread`, `cnav_reread`, `state_reread`, `frame_reread`, `entry_reread`, `header_reread`,
  `header_exact`, `restate` prove that what is written reads back: numbers, records, frames, headers,
  entries and whole files. `file_laws` holds what is true of whole texts, and `cr` that a `CR` left
  at the end of a line changes nothing.
* `store`, `order`, `stated_time`, `epoch`, `health`, `ura` select records and judge them; `evaluate` states what a
  selected record is evaluated with.
* `lnav` builds a GPS record from decoded subframes.
* `decimal`, `binary`, `time`, `text`, `id`, `record`, `error` are what the rest is built of: numbers are held
  in decimal digits and instants to 10^-30 s, so nothing is lost between a file and its records;
  a number of more digits than its field has is rounded as the double nearest to it.

`app/` evaluates in double precision what the library states exactly.
