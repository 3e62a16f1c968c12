# trading_core

A verified library of the parts that an automated trading system is made of:
order routing and execution algorithms, exchange and chain models, indicators
and features, risk and compliance rules, clocks, compression, and the machinery
around them (event loop, allocators, thread queues, protocol gateways).

- `src/` is the library. Every function has a contract, and Verus proves it.
  Prices, quantities and rates are fixed-point integers. Functions take the time
  as an argument.
- `tests/` runs the library on concrete values, one file per module.
- `app/` is the program around the library: the clock, memory and thread calls
  of the operating system, and all floating point.

What holds of several calls together stands in public proof functions, next to
the types they speak of: no event is released twice, allocations do not
overlap, slices of an order add up to the order, what was compressed is read
back unchanged.
