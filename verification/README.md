# Pechincha

Price comparison across Brazilian and international stores: what a search finds is
brought to what it really costs in Brazil, with shipping and import taxes, freed of
accessories and duplicates, and put in order.

`src/` is the library. Every function there is verified with Verus against the contract
that it states, and the laws that relate several of them are proved beside them. What the
library takes from other crates stands behind declarations whose contracts are believed:
they are the functions marked `external_body`, the `assume_specification` items, and the
functions without a body that name their results.

| Part | Modules |
|------|---------|
| Amounts, text, order, data | `decimal`, `text`, `order`, `pattern`, `json`, `html`, `codec`, `clock` |
| Products and stores | `models`, `providers`, `scraping`, `cdp`, `error`, `config` |
| Taxes, relevance, lists | `tax`, `scoring`, `rating`, `search` |
| Searches step by step | `session`, `enrich`, `keepa`, `currency` |
| Records | `cache`, `history`, `watch`, `cookies` |
| What is shown and asked | `display`, `cli`, `notify`, `browser`, `daemon` |

Scores are whole numbers of quintillionths, times are nanoseconds since the start of 1970, and
amounts are decimals of at most 28 places.

`app/` is the program around the library: the command line, the network, the browser and
the files. `tests/` holds the tests of the library.
