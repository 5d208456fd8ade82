# droid-mcp

An MCP (Model Context Protocol) server for rooted Android development via
Termux. `src/` is the library: what the server answers, which tools it offers,
what a call makes them run and what the policy forbids, each with a contract
that Verus proves. `app/` is the program around it: the command line, the
files, the processes and the two transports (SSE over HTTP, and stdio).

- `text`, `table`, `json`, `shell`: texts, tables by name, JSON values, shell
  words.
- `mcp`: the messages of JSON-RPC and MCP.
- `policy`: what is allowed.
- `params`, `tools`, `plugin`: parameters and their validators, shell tools and
  the traits that users implement.
- `registry`: tools by name, under a policy.
- `builtins`, `manifest`: the tools that are built in, and those that a file
  declares.
- `server`, `transport`: what is answered to each request, and what reaches the
  server.

The library does no input or output. A call comes to a result, to a program to
run or to a file to read; the program in `app/` does that and hands the outcome
back.
