# EV charging simulation

A simulation of electric-vehicle charging at a site: vehicles arrive, take
a free charger or wait in a queue (leaving it after their longest wait, or
not joining it when it is too long), charge, idle, and unplug.

## Layout

- `src/` — the verified library (Verus). It holds the bookkeeping of the
  simulation, with its contracts and laws:
  - `events`, `containers::event_queue` — events and the queue that serves
    them earliest first (ties in the order they were pushed);
  - `containers` — the lists of vehicles, sites, charge profiles and
    locations indexed by ID, and the FIFO waiting queue;
  - `ev`, `evse` — vehicles, connectors, chargers and sites;
  - `session` — the record of each vehicle's visit;
  - `simulation` — the discrete-event simulation, handled event by event,
    and `simulation::timestep`, the time-step simulation;
    `simulation::accounting` states and proves that, in either simulation,
    every vehicle (with IDs distinct) ends with exactly one session —
    charged, balked or reneged — once no event is left, that no session
    records a wait beyond its vehicle's longest, and that no charger of the
    discrete-event simulation serves two vehicles at once;
    `simulation::timeline` proves that a discrete-event run records its
    sessions in time order, with no two overlapping on a charger;
    `simulation::timestep_timeline` proves for the time-step simulation
    that sessions are plugged in after arrival and unplugged after plug-in,
    never overlap on a charger, and are plugged in first come, first served;
  - `distributions` — arrival times from the drawn day, hour, minute and
    second, sorted;
  - `ids`, `id_index` — IDs (the 128-bit value of a UUID) and the index maps;
  - `counting` — counting the elements of a sequence that satisfy a
    predicate, used by the accounting.
- `app/` — ordinary Rust around it: everything that computes in floating
  point (charge profiles and their integration, power sharing at the site,
  states of charge, geolocation), the random samplers, CSV input and output,
  and the loops that drive the library's simulations with that physics.
- `tests/` — tests of the library.

Every charging time that the library schedules is computed by `app/` from
the vehicle's charge profile and passed to the library in whole seconds.
