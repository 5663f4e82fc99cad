# aether

Aether runs graphs of agents. A workflow names agents and the edges between them;
a supervisor hands each node its input once all nodes before it have answered,
keeps every answer in an execution store, parks a node that asks a human for a
decision, and can pick up a run that another process left behind.

The library in `src/` holds the decisions and is verified with Verus. It makes no
calls over the network and reads no clock: calls to agents, the time and fresh ids
come from the embedding program.

| Module | What it decides |
|--------|-----------------|
| `workflow`, `dag`, `dag_laws`, `registry`, `types` | graphs, planned DAGs and agents; cycles and unknown names are refused |
| `supervisor`, `supervisor_laws`, `run_laws` | which nodes are ready, what an answer does, how a run ends, resumes and recovers; a run at rest has lost no node and gives every result |
| `execution_store`, `execution_laws` | the rows of executions, holds and their ends, deadlines |
| `orchestrator` | from a goal to a plan to a workflow |
| `registry_store`, `registry_server`, `health_poller` | registered agents, the answers of the registry, health |
| `instance_manager`, `transport`, `envelope`, `resume` | which connection takes a task, and what goes over it |
| `dashboard`, `graph`, `events` | what is shown and told of runs, agents and workflows |
| `jsonrpc`, `engine`, `job` | the tool interface |
| `json`, `decode`, `text`, `text_map`, `ids`, `clock`, `error` | values, texts, ids and moments |

`app/` holds the programs around the library: SQLite files, HTTP servers and
clients, child processes and the command line.

```
aether registry                 agent registry (AETHER_PORT, AETHER_DB_PATH, AETHER_POLL_INTERVAL_SECS)
aether mcp [expire-gates]       tool interface (AETHER_MCP_TRANSPORT, AETHER_MCP_PORT)
aether decide <id> <approve|reject>
aether pipeline <prompt>        analyst -> writer, with a dashboard on port 7700
aether demo <prompt>            the same with two agents in this program
aether echo-agent               an agent that answers what it is sent
aether dag-schema               the JSON Schema of a planned DAG
```
