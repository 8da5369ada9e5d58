# cml

Command-line utilities for Cisco Modeling Labs (CML): a REST client
(`cmlrest`), a console terminal (`cmlterm`) and its bash completion helper.

The logic lives in `src/`, a Verus library whose functions carry contracts
proved by Verus:

* `rest_types`, `lab_yaml`, `utils`, `rest` — the CML data model, request
  paths, response handling and credentials from the environment;
* `shell_quote`, `iter_extensions`, `completion` — splitting and quoting bash
  words, and the completion candidates;
* `api`, `term` — script commands, the rolling console buffer, prompt
  detection, and the decisions of the scripted, interactive and SSH console
  sessions;
* `terminal`, `open_term`, `listing`, `cmlrest` — finding labs, nodes and
  console lines, the steps of opening (and booting) a console, and listing
  them;
* `expose` — the decisions of a TCP port forwarded to a node's console.

`app/` holds the programs around it: argument parsing, HTTP and websocket
I/O, the terminal, and the serde copies of the library's types.
`tests/` runs the library on concrete inputs.
