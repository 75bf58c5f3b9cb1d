# haptics

A bridge that subscribes to MQTT topics, reads CloudEvents from them and, for
every configured rule whose filter accepts an event, plays a named haptic
gesture on a device.

- `src/` is the verified library: glob patterns and event filters
  (`config`), rule validation (`rules`), the gesture table (`gestures`), the
  choice of gestures for an event (`dispatch`), backend names (`backend`) and
  the player's state machine (`player`). Floats are carried by their bit
  patterns (`magnitude`).
- `app/` is the program: reading the YAML configuration, the MQTT loop, the
  JSON conversions, scaling gestures (floating point), the output backend and
  the player thread.
- `tests/` exercises the library.
