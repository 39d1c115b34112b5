# ts_enum

Rewrites TypeScript `enum` declarations into plain JavaScript, and accesses to enum
members into their constant values. The rewriting is verified with
[Verus](https://github.com/verus-lang/verus).

```ts
enum Foo { X = 1, Y }
```

becomes

```js
var Foo = ((Foo) => {
  Foo[Foo["X"] = 1] = "X";
  Foo[Foo["Y"] = 2] = "Y";
  return Foo;
})(Foo || {});
```

## Layout

- `src/ast.rs`: the syntax that is read and built, with its mathematical view.
- `src/scoping.rs`: the scope tree and symbol table of a program. The tables are those
  of `oxc_traverse`; what each call on them does is stated here and not proved.
- `src/model.rs`: what an enum declaration becomes, as a function of the declaration
  and the tables.
- `src/rename.rs`: the qualification of members inside initializers.
- `src/number.rs`: double-precision numbers as bit patterns, and the addition of one.
- `src/typescript_enum.rs`: the transform, proved to do what the model says.
- `src/laws.rs`, `src/references.rs`: what follows for every program.
- `app/`: the transform as a pass over the syntax tree of `oxc_ast`.
