# usd_protocol

Simulations of the undecided-state dynamics (USD), a population protocol for
opinion formation, verified with Verus.

- `src/usd.rs`: every agent stored with its opinion, plus a histogram of opinions.
- `src/usd_fast.rs`: only the histogram, kept in a dynamic weighted index
  (`dynamic-weighted-index`), from which interacting opinions are sampled.
- `src/algorithm_fast.rs`: biased transitions on top of the histogram simulation.
- `src/distribution.rs`: initial distributions.
- `src/rules.rs`, `src/counting.rs`: the transition rule and the arithmetic of counts.
- `src/rng.rs`, `src/weighted_index.rs`: the trusted interfaces to `rand` and
  `dynamic-weighted-index`.

`app/` holds the command-line driver: printing, CSV output, the floating-point
coins of the biased dynamics, and the threaded experiments.
