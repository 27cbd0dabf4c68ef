# purrgress

Stage queues and baked stage trains for real-time loops, written in Verus.

## Layout

- `src/` is the verified library.
  - `types.rs`: stage traits (`PurrStep`, `PurrChainStep`) and the small
    enums shared by the managers.
  - `condition.rs`: the clock-free conditions (`InstantCondition`,
    `PurrFlag`).
  - `cat_malloc/`: the train engine. Designs (`PurrDesign`) are baked into
    routes (`PurrRoute`), routes are launched onto sidings (`PurrSiding`),
    and sidings are attached to a cursor-driven train (`PurrTrain`) that
    runs along a `CursorLine`.
  - `cat_stage_manager/`: the graph-driven `StageManager` with nested
    managers, and `StageGraph`, its dependency graph kept in petgraph.
  - `cat_telegraph/`: the dispatcher's route table (`PurrDispatcher`) and
    the decision that each command takes.
  - `cat_motion_blur/`: the stage type used by animators.
- `tests/` runs the library on concrete values.
- `app/` holds what the library leaves out: float timers and vectors, the
  animator's timing metadata, the tokio channels around the dispatcher,
  the rkyv codec of sidings, and serde-ready copies of the plain enums.

## What is proved

Every public function of `src/` states its result over spec models
(`Seq`, `Map`, and views of the library's types), and the laws of the
library are proof functions beside the code: baked routes come from the
design and end with their stage, a self-coupled stage is refused, the
train's cursor steps by at most one place and keeps finished carriages,
inserting past the end of a queue is pushing, a strict rumble runs only
the front chain, an update of the queue steps exactly on the front
condition's answer, and a dispatcher route added by default is found and
gone again once deleted. Under default adds and deletes the dispatcher
stays tidy: its count is the routes held, each key is held once, one store
is in use at a time, and a delete leaves every other key found.
