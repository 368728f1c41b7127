# corsget

A proxy server that fetches allowed URLs on behalf of browsers and hands the
responses on with permissive CORS headers. `GET /{target}` is proxied,
`OPTIONS /{target}` answers a preflight, everything else is refused.

The library in `src/` decides; the program in `app/` listens, reads files, talks to
targets, and does what the library says.

| Module       | What it decides                                                     |
|--------------|---------------------------------------------------------------------|
| `exchange`   | the course of a request: limits, cache, target, redirects, answer    |
| `proxy`      | target URLs, policy verdicts, which headers go on and come back      |
| `cors`       | CORS headers, preflights, hop-by-hop headers                         |
| `matcher`    | allow and deny lists                                                 |
| `pattern`    | regular expressions and wildcards                                    |
| `limit`      | connection bandwidth and the per-result cap                          |
| `rates`      | what a client is told that has asked too often                       |
| `extractors` | requesting origin, client address, bucket key                        |
| `cache`      | what is cached, for how long, and when it is served                  |
| `rules`      | rules of the cache whitelist                                         |
| `variants`   | cache keys and `Vary`                                                |
| `freshness`  | `Cache-Control` and `Expires`                                        |
| `store`      | files of the cache directory, cleanup and eviction                   |
| `config`     | configuration values and their validation                            |
| `state`      | what all requests share                                              |
| `error`      | errors and the statuses that they become                             |
| `headers`    | header maps as finite maps from names to values                      |
| `urls`       | URLs, taken apart                                                    |
| `text`       | texts as sequences of characters                                     |
| `clock`      | the wall clock                                                       |

What each function does is stated in its contract and proved. What holds of several
functions together is stated by the public proof functions whose names begin with
`law_`. What is believed of other crates stands in the contracts of the few functions
that call them, each marked `external_body` or written as an `assume_specification`.
