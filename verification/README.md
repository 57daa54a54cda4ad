# onion_harness

A small network of onion messengers, verified in Verus.

A row of nodes is set up, each connected to the next. The first node's messenger takes in a
message for a path: through nodes in the open, to a node or to a blinded path. Passing
messages along the row then brings it to the last node, whose handler counts it and whose
log shows it. Sealing is symbolic: a layer names the node that it is sealed to, and only
that node opens it. Node keys are real: they come from seeds, through the `bitcoin` crate.

| module      | holds                                                              |
|-------------|--------------------------------------------------------------------|
| `keys`      | public keys, and the keys of a seed                                |
| `features`  | what nodes announce when they connect                              |
| `custom`    | message contents, and the handler that counts them                 |
| `path`      | paths, blinded paths, and the layers that they become              |
| `packet`    | onion messages and their length                                    |
| `buffers`   | messages that wait to go out, by peer                              |
| `logger`    | a log that can be asked what it holds                              |
| `messenger` | sending, receiving and passing on                                  |
| `nodes`     | rows of nodes, and passing a message along one                     |
| `laws`      | what holds of all this as a whole, above all that messages arrive  |

`app/` reads and writes messages on streams, and turns a failed expectation into a panic.
