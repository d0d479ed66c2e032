# kubesim

A discrete-event simulator of a Kubernetes cluster: an API server, a
scheduler with its queues and plugins, kubelets running pod loads, and the
cluster, horizontal and vertical pod autoscalers.

- `src/` is the verified library. Each component is a state machine with a
  model (`View`) and contracts over it: the API server's routing step
  (`APIServer::on`), the scheduler's queues, filters, scores and scheduling
  cycle, the kubelet's resource ledger and eviction order, the autoscalers'
  decisions (the vertical one's from the drift measured in `app/`), the
  monitoring counters and the workload CSV row parser. Laws
  that span calls are public proof functions (`lemma_*`).
- `app/` runs the simulation: it reads the configuration and workload files,
  drives the components through the event loop, and holds what works on
  real numbers (the pod load curves, the Tetris score, the vertical
  autoscaler's usage histories).
- `tests/` exercises the library on concrete values.
