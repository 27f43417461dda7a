# search_ownership

Ranking of symbol search results by ownership, verified with Verus.

Provider search results are matched against the user's local assets: a result
whose symbol the user holds or held gets that ownership status, local assets
that the providers did not return are added, and everything is ranked stably by
ownership (currently owned, previously owned, not owned) and then by descending
score in the IEEE-754 total order.

Layout of `src/`:

- `ownership.rs`: ownership statuses and their priority.
- `quote.rs`: search entries, assets, activities, the score order key, ranks.
- `ranking.rs`: the stable sort by rank.
- `symbols.rs`: `SymbolSet` and `OwnershipMap`, collections keyed by symbol text.
- `search.rs`: ownership classification, result enrichment, previously owned symbols.
- `query.rs`: the decisions around a search: query matching, account aggregation.
- `laws.rs`: properties of the library stated over the contracts and proved.

Scores are carried as the bit pattern of the provider's double (`f64::to_bits`).
