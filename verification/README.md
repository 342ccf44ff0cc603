# sandlock_expand

Expansion of `${HOME}` in the path values of sandbox profiles, verified with Verus.

- `src/grammar.rs`: what a value means, as spec functions over characters.
- `src/expand.rs`: `expand` and its helpers, proved to give that meaning.
- `src/home.rs`: which directory `${HOME}` stands for.
- `src/message.rs`, `src/quote.rs`, `src/error.rs`: how a refused value is answered.
- `src/text.rs`: string operations with contracts over characters.
- `src/laws.rs`: laws of the library as public proof functions.
- `app/`: reads the environment and the passwd database.
- `tests/`: the library run on concrete values.
