# two_sided_vec

A vector that grows in both directions. Elements behind the middle have negative
indexes, elements in front of it have indexes from zero upwards, and pushing to one
side never moves the indexes of the other.

The library in `src/` is verified with Verus:

- `lib.rs`: `TwoSidedVec` and the buffer behind it, `RawTwoSidedVec`. A vector is
  viewed as a pair of sequences (back in index order, front); every operation states
  its result over that view and over the capacity granted to each side.
- `raw.rs`: `Capacity`, `CapacityRequest` and the rule by which a buffer grows.
- `select.rs`: selecting elements by flags, used to state what filtering keeps.
- `drain.rs`: filtering passes that hold the vector, call the predicate as they are
  walked, put kept elements back and hand out the removed ones.
- `enumerate.rs`: `SignedEnumerate`, which pairs elements with signed indexes.
- `extend.rs`: the `TwoSidedExtend` trait.
- `index.rs`: the `TwoSidedIndex` trait for signed indexes and ranges.
- `serialize.rs`: the decisions taken while reading the serialized form.
- `laws.rs`: properties that relate the operations to one another.

`app/` holds the serde support, which the library's decisions drive.
