# stylex_evaluate

A static evaluator for the JavaScript expressions a style compiler reads at
build time, written in Verus and verified.

Given an expression and the module it is written in, `evaluator::evaluate`
either folds the expression to a value (a literal, an array, an object, a
theme reference, an injected function) or refuses it and records the first
sub-expression it could not fold and why. Every subtree is read through a
memo, under a depth ceiling and on a stack that grows with the walk, and every
string the evaluator builds is grown under a character ceiling.

## What is proved

- Every answer agrees with the meaning of the expression wherever that
  meaning is self-contained (`semantics::const_fold`).
- The evaluator answers exactly when it stays confident, records each refusal,
  and never changes a refusal once made.
- The module and its budgets come back as they were, the memo only grows, a
  subtree folded once is answered from the memo the next time, and a refusal
  the evaluation owns is refused again from the memo.
- Each composite arm answers from what its subtrees were evaluated to, one
  evaluation after another through the memo: a member reads its key off its
  object's value, an optional member ends the chain at `null` or
  `undefined`, a conditional takes the branch its test chooses, the unary
  and binary operators apply to their operands' values, an array is its
  slots' values in order, a template joins its quasis with its values'
  strings, a call's arguments are their expressions' values, a name bound to
  an initializer answers what the initializer's evaluation answers, and a
  computed object key reads the string its top-level evaluation spells.
- A simple expression (literals, arrays, objects, templates, the operators and
  methods the evaluator reads, built from such expressions) with room under the
  depth ceiling, strings that fit the character ceiling, and a memo that
  remembers no refusal, is answered with its meaning.
- A name is answered with the value the injected function map gives it, and
  otherwise resolves in a fixed order (imports, writes, declaration order,
  globals, initializers), stated as `binding::resolution`, with each refusal
  recorded against the expression its step names.

## What is refused rather than folded

- Numeric arithmetic and numeric comparisons: their values are floating
  point, which the library does not compute; they are refused with "Numeric
  arithmetic is not folded at compile time."
- Arrow functions and other callbacks, and so `map` and `filter` with a
  callback: refused as unsupported expressions.
- Calls of injected functions and of `Math`: refused as unsupported call
  expressions.
- Folding a call by running it in a JavaScript engine is not done here;
  `src/fold.rs` holds the verified helpers a caller that runs such a fold
  counts and asks with.

## Layout

- `src/syntax.rs`, `src/value.rs`: the expression and value types and their
  mathematical views.
- `src/semantics.rs`, `src/coerce.rs`, `src/property.rs`, `src/text.rs`: the
  meaning of expressions, JavaScript's coercions, property reads, and UTF-16
  lengths.
- `src/evaluator.rs`, `src/nodes.rs`, `src/binding.rs`, `src/cache.rs`: the
  evaluator itself, one arm per kind of expression, identifier resolution, and
  the memo and depth ceiling.
- `src/helpers.rs`, `src/grown.rs`, `src/fold.rs`, `src/growable_stack.rs`,
  `src/state.rs`, `src/deopt.rs`, `src/messages.rs`: own-key lists, strings
  grown under a ceiling, budgets and name rules, the stack, the module state,
  refusals and their sentences.
- `src/laws.rs`: properties that span several functions.
- `app/`: reading `swc` expressions into the library's syntax.
- `tests/`: scenarios run against the compiled library.
