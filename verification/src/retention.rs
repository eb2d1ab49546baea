//! The reactor-tick retention sweep's cadence and the caps the reactor's system principal holds.
use vstd::prelude::*;

verus! {

/// Run the retention sweep once every this many reactor ticks.
pub const SWEEP_EVERY_N_TICKS: u64 = 30;

/// How many finished flow runs to keep per workspace.
pub const DEFAULT_FINISHED_RUN_CAP: u64 = 500;

/// Whether tick `tick_count` (0-based) runs the sweep: every thirtieth tick, tick 0 included.
pub fn should_sweep(tick_count: u64) -> (b: bool)
    ensures
        b == (tick_count % SWEEP_EVERY_N_TICKS == 0),
{
    tick_count % SWEEP_EVERY_N_TICKS == 0
}

/// The caps of the reactor's system principal, in order.
pub open spec fn reactor_caps_spec() -> Seq<Seq<char>> {
    seq![
        "mcp:flows.run:call"@,
        "mcp:flows.enable:call"@,
        "mcp:flows.inject:call"@,
        "mcp:flows.resume:call"@,
        "mcp:flows.cancel:call"@,
        "mcp:series.read:call"@,
        "store:flow:read"@,
        "store:flow:write"@,
        "store:*:read"@,
        "store:*:write"@,
        "mcp:*.call:call"@,
        "mcp:ext.list:call"@,
        "mcp:store.query:call"@,
        "mcp:store.write:call"@,
        "mcp:store.delete:call"@,
    ]
}

/// The caps the reactor's system principal needs to drive headless flows: the flows run surface,
/// the store surface, and the built-in platform nodes' verbs (never an arbitrary extension tool).
pub fn reactor_caps() -> (caps: Vec<String>)
    ensures
        caps@.len() == reactor_caps_spec().len(),
        forall|i: int| 0 <= i < caps@.len() ==> #[trigger] caps@[i]@ == reactor_caps_spec()[i],
{
    let mut caps: Vec<String> = Vec::new();
    caps.push(String::from_str("mcp:flows.run:call"));
    caps.push(String::from_str("mcp:flows.enable:call"));
    caps.push(String::from_str("mcp:flows.inject:call"));
    caps.push(String::from_str("mcp:flows.resume:call"));
    caps.push(String::from_str("mcp:flows.cancel:call"));
    caps.push(String::from_str("mcp:series.read:call"));
    caps.push(String::from_str("store:flow:read"));
    caps.push(String::from_str("store:flow:write"));
    caps.push(String::from_str("store:*:read"));
    caps.push(String::from_str("store:*:write"));
    caps.push(String::from_str("mcp:*.call:call"));
    caps.push(String::from_str("mcp:ext.list:call"));
    caps.push(String::from_str("mcp:store.query:call"));
    caps.push(String::from_str("mcp:store.write:call"));
    caps.push(String::from_str("mcp:store.delete:call"));
    caps
}

/// The run statuses retention may purge, in the order the purge binds them.
pub fn terminal_run_statuses() -> (r: Vec<String>)
    ensures
        r@.len() == 4,
        r@[0]@ == "success"@,
        r@[1]@ == "partialFailure"@,
        r@[2]@ == "failed"@,
        r@[3]@ == "cancelled"@,
{
    let mut r: Vec<String> = Vec::new();
    r.push(String::from_str("success"));
    r.push(String::from_str("partialFailure"));
    r.push(String::from_str("failed"));
    r.push(String::from_str("cancelled"));
    r
}

/// The retention transaction keeping the newest `max(cap, 1)` finished runs: it collects the kept
/// run ids, purges the other finished runs and their step rows, and returns how many runs it
/// purged. The tables and the terminal statuses are bound as `$runs`, `$steps` and `$terminal`.
pub fn retain_runs_sql(cap: usize) -> (sql: String)
    ensures
        sql@ == "BEGIN TRANSACTION;LET $keep = (SELECT VALUE id FROM type::table($runs) WHERE data.status IN $terminal ORDER BY id DESC LIMIT "@
            + crate::text::decimal(if cap < 1 {
            1nat
        } else {
            cap as nat
        }) + ");LET $purge = (SELECT VALUE data.run_id FROM type::table($runs) WHERE data.status IN $terminal AND id NOT IN $keep);DELETE FROM type::table($runs) WHERE data.status IN $terminal AND data.run_id IN $purge;DELETE FROM type::table($steps) WHERE data.run_id IN $purge;RETURN count($purge);COMMIT TRANSACTION;"@,
{
    let n: usize = if cap < 1 {
        1
    } else {
        cap
    };
    let mut sql = String::from_str(
        "BEGIN TRANSACTION;LET $keep = (SELECT VALUE id FROM type::table($runs) WHERE data.status IN $terminal ORDER BY id DESC LIMIT ",
    );
    crate::text::push_decimal(&mut sql, n as u64);
    sql.append(
        ");LET $purge = (SELECT VALUE data.run_id FROM type::table($runs) WHERE data.status IN $terminal AND id NOT IN $keep);DELETE FROM type::table($runs) WHERE data.status IN $terminal AND data.run_id IN $purge;DELETE FROM type::table($steps) WHERE data.run_id IN $purge;RETURN count($purge);COMMIT TRANSACTION;",
    );
    sql
}

} // verus!
