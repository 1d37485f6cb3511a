# narwhal

A Narwhal-style transaction mempool node: transactions form a DAG whose edges
point to parent transactions, each transaction is identified by the SHA-256
digest of its data and parent ids, and transactions are disseminated to peers
over libp2p. The library in `src/` is verified with Verus; `app/` is the node
program around it (networking, HTTP API, files).

Layout of `src/`:

- `transaction.rs`: transactions, their ids (SHA-256 digest, in lower-case
  hex, of the data and the parent ids, each prefixed with its length, so that
  the hashed bytes determine data and parents) and the hashing it rests on.
- `message.rs`: the message that carries a transaction to peers, and how a
  receiver rebuilds the transaction from it.
- `dag.rs`: the DAG, which only takes a transaction whose parents it holds;
  it stays parent-closed, and stays acyclic when ids are new or repeat the
  same transaction.
- `strmap.rs`: sets and maps of strings kept in vectors.
- `p2p.rs`: the peer manager and the content of its peer file.
- `behavior.rs`: the network behaviour's decisions on Kademlia, identify,
  connection and request/response events, and the requests that send a
  transaction to every known peer.
- `node.rs`: the node's decisions on swarm events and submitted transactions,
  and on dialing the address it was started with.

The node serves `POST /transaction` (`{"data": ..., "parents": [...]}`) to
submit a transaction, and `GET /dag/state` to read the DAG.
