# mutation_orchestrator

The decisions of a mutation testing run over a Solidity project, verified with Verus: which
source files are mutated, under which digest their cached outcomes are looked up, in which order
mutants are tried, what is tallied, what is kept for the next run, and when the run stops.

- `src/config.rs`, `src/pattern.rs`: what the user asks for
- `src/digest.rs`: the digest of everything that affects outcomes beyond source and build
- `src/path.rs`, `src/resolve.rs`, `src/plan.rs`: the choice of files and their builds
- `src/order.rs`, `src/mutant.rs`: stable sorting, mutants, outcomes and summaries
- `src/notice.rs`, `src/run.rs`: the run as a state machine, and the lines it shows
- `src/history.rs`: what holds over the whole course of a run
- `app/`: the loop around the state machine, with the file system, the compiler output and a host
  tool that generates and executes mutants

Trusted without proof are the declaration of `regex::Regex` and its methods `as_str` and
`is_match`.
