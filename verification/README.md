# mqtt_bench

A benchmark for MQTT brokers. A publisher sends bursts of counter messages; an
analyser drives it through a matrix of settings and reports how many messages
arrive and how late.

`src/` is the library, verified with Verus:

- `number`, `text`: decimal numbers, white space, lists and columns
- `clock`: the wall clock in microseconds
- `client`: the options of the MQTT client library
- `topics`, `message`: topic names and the counter messages
- `filters`, `broker`: the command line and the settings of the connection
- `matrix`, `timing`, `session`: which tests are run, how long they take, and
  the steps of each
- `receiver`: gathering the messages of a run
- `stats`, `report`: the figures of a run and the printed table
- `publisher`: the settings and bursts of the publisher

Laws that relate several functions are the public proof functions whose names
start with `law_`.

`app/` holds the two programs around it: connections, timers, files, and the
figures that need floating point. The binary publishes when it is called
`mqtt-publisher`, and analyses otherwise.
