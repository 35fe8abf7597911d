# agsh

The verified core of `agsh`, an agent shell whose tools read, search and edit
files on the user's behalf under a permission level.

`src/` is a Verus library; every function in it is verified against its
contract:

- `permission` — the four permission levels, what each allows, the Shift+Tab
  cycle, parsing and naming, and the permission cell shared by clones.
- `todo` — the task list of the `todo` tool: how a call (`items`, `title`,
  `set`) changes it and the plain text that echoes it.
- `file` — what `read_file` shows of a file, the replacement `edit_file`
  makes, and the messages of both and of `write_file`.
- `find` — the glob pattern of `find_files` and the text of its result.
- `stash` — oversized tool results: the notice that replaces them, and the
  range and regex reads of `read_stash`.
- `subagent` — the level and the system prompt of a sub-agent.
- `text`, `lines`, `replace` — character-level string work (UTF-8 byte
  lengths, boundaries, decimal numbers, `str::lines`, literal
  find-and-replace) with specifications of their own.
- `util`, `tool` — user-supplied regular expressions and tool results.

`app/` is the `agsh` command around it: the tool trait and registry, file
system and glob access, JSON parsing of tool calls, and the store of saved
outputs.
