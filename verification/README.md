# solast

Static analysis of Solidity syntax trees, with its logic verified by Verus.

- `src/` is the library: a model of the Solidity compiler's JSON syntax tree
  (`ast`), the report that findings go to (`report`), text and number
  helpers (`text`, `render`, `wide`), queries over source units (`query`),
  licence comments (`comments`), command-line words and unit selection
  (`project`), the review checklist (`todo_list`) and the analyses with the
  walker that drives them (`analysis`).
- `app/` is the `solast` command: it reads a compiled Brownie, Hardhat,
  Truffle or Foundry project (or lone `.sol` files), converts the JSON syntax
  trees into the library's model, runs the analyses and prints the checklist
  and the report as plain text or JSON.
- `tests/` exercises the library on small syntax trees.

Usage:

```
solast [--todo_list] [--contract=<name>] [--contract-path=<file.sol>] [--output-format=json] [--<analysis>...] <project_directory>
```
