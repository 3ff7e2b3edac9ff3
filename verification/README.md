# ground_station

The decisions of a rocket ground station, verified with Verus, and the firmware around them.

- `src/gs.rs`: where the antenna should point, and what its two stepper motors do at each tick.
- `src/binary32.rs`: order, clamping and truncation of single-precision numbers on their bits.
- `src/task.rs`: the requests to the task that owns the flash chip, and how they are sent.
- `src/handler.rs`: what that task does next, as phases, actions and events;
  `src/handler_laws.rs`: what holds over whole requests, such as that an erase keeps the
  configuration and forgets the log.
- `src/saved_config.rs`: the configuration values kept in memory during an erase.
- `src/beacon.rs`: the light that blinks during an erase.
- `src/writer.rs`: a text writer over a buffer of fixed size.

`app/` performs the actions: it drives the motors, does the trigonometry in floating point, and
reads and writes the chip. It is generic in the firmware's message and key types.

Proof functions named `law_*` state what the library promises; the other proof functions serve
them.
