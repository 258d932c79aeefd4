# payments_engine

A payments engine that applies client transactions (deposits, withdrawals,
disputes, resolves, chargebacks) to client accounts, written in Verus.

- `src/amount.rs`: decimal amounts (mantissa and scale) and the decimal
  arithmetic, which `rust_decimal` performs.
- `src/models.rs`: transactions, accounts and errors.
- `src/processor.rs`: the engine, with a model of its behaviour (`ledger`:
  the accounts and the deposits under dispute)
  that its contracts are stated against.
- `src/laws.rs`: what every transaction and every run keeps: total funds
  equal to available plus held funds (for runs whose decimal operations are
  all exact, i.e. none has to round), locked accounts, independence of
  accounts, one account per client, and what appending one transaction to a
  run does.
- `app/`: the command-line program: reads the CSV input, runs the engine,
  writes the CSV output.
