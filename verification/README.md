# benchmarking

Publishes simulated driver traffic (IMU measurements, trip starts and trip
ends) to a Kafka cluster, for broker benchmarks.

- `src/` is the verified library: the agents' schedule (`agent`), the events
  (`events`), a run of agents and its accounting (`agent_runner`), and the
  properties that hold across operations (`laws`). Clock readings, random draws
  and UUIDs come through small trusted wrappers (`clock`, `entropy`).
- `app/` is the program: command line, logging, JSON encoding of events,
  sensor readings, and publishing to Kafka with tokio.
- `tests/` exercises the library on concrete values.
