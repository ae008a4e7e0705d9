# traintables

Builds timetable tables from the French national rail open data:

- **GTFS** (`src/gtfs`): the records of the GTFS feed and what is derived from
  them — stations and stop points split by location type, the first and last
  stop of each trip, trips completed with those endpoints, service days grouped
  by service, `HH:MM:SS` times read as seconds.
- **NeTEx** (`src/netex`): the sections of the NeTEx export (stop places,
  topographic places, route points, routes, scheduled stop points, journey
  patterns) read from the XML document element by element.
- **SIRI** (`src/siri`): the decision taken on each event of a streamed
  estimated timetable, producing one trip update row per vehicle journey.

`src/xml.rs` reads XML documents through `quick_xml`. Every step taken on a
document (an event, or the raw text of an element) is recorded, and each
recorded step is the reader's reply to the document given the requests made
before it. Each parser is specified by a function from the steps it took to
the value it returns, so that what a parser returns is determined by what it
read and by nothing after it.

`app/` holds the programs: downloading and unpacking the archives, reading and
writing CSV tables, and the asynchronous SIRI stream
(`traintables gtfs | netex | siri | version [path]`).
