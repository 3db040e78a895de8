use zsh_tool_exec::alan::init_schema;
use zsh_tool_exec::alan::prune::{apply_decay, maybe_prune, maybe_prune_at, prune, prune_at, should_prune};
use zsh_tool_exec::alan::store::{Observation, SshObservation, Store};

fn observation(id: &str, hash: &str, weight: u32, created_at: &str) -> Observation {
    Observation {
        id: id.to_string(),
        command_hash: hash.to_string(),
        command_template: format!("tpl-{}", hash),
        command_preview: "echo test".to_string(),
        exit_code: 0,
        duration_ms: 100,
        timed_out: false,
        output_snippet: None,
        weight,
        created_at: created_at.to_string(),
    }
}

fn ssh_row(id: &str, observation_id: &str, weight: u32) -> SshObservation {
    SshObservation {
        id: id.to_string(),
        observation_id: observation_id.to_string(),
        host: "host".to_string(),
        remote_command: None,
        remote_command_template: None,
        exit_code: 0,
        exit_type: "success".to_string(),
        duration_ms: 100,
        timed_out: false,
        weight,
        created_at: "2020-01-01T00:00:00Z".to_string(),
    }
}

fn fresh_db() -> Store {
    init_schema()
}

#[test]
fn test_prune_removes_low_weight() {
    let mut store = fresh_db();
    store.observations.push(observation("old1", "hash1", 1_000, "2020-01-01T00:00:00Z"));
    store.observations.push(observation("new1", "hash2", 1_000_000, "2030-01-01T00:00:00Z"));
    prune(&mut store, &vec![], &vec![], 10_000, 10000);
    assert_eq!(store.observations.len(), 1);
    assert_eq!(store.observations[0].id, "new1");
}

#[test]
fn test_prune_enforces_max_entries() {
    let mut store = fresh_db();
    for i in 0..5 {
        store.observations.push(observation(
            &format!("id{}", i),
            &format!("hash{}", i),
            1_000_000,
            "2030-01-01T00:00:00Z",
        ));
    }
    prune(&mut store, &vec![], &vec![], 10_000, 3);
    assert_eq!(store.observations.len(), 3);
}

#[test]
fn test_prune_cleans_orphaned_ssh() {
    let mut store = fresh_db();
    store.observations.push(observation("obs1", "hash1", 1_000, "2020-01-01T00:00:00Z"));
    store.ssh_observations.push(ssh_row("ssh1", "obs1", 1_000));
    prune(&mut store, &vec![], &vec![], 10_000, 10000);
    assert_eq!(store.observations.len(), 0);
    assert_eq!(store.ssh_observations.len(), 0);
}

#[test]
fn test_maybe_prune_skips_if_recent() {
    let mut store = fresh_db();
    store.last_prune = Some(chrono::Utc::now().to_rfc3339());
    store.observations.push(observation("old1", "hash1", 1_000, "2020-01-01T00:00:00Z"));
    let pruned = maybe_prune(&mut store, &vec![], &vec![], 10_000, 10000, 6);
    assert!(!pruned);
    assert_eq!(store.observations.len(), 1);
}

#[test]
fn prune_keeps_the_heaviest_and_drops_orphans() {
    let mut store = fresh_db();
    for (i, w) in [500_000u32, 900_000, 20_000, 900_000, 5_000, 700_000].iter().enumerate() {
        store.observations.push(observation(&format!("o{}", i), "h", *w, "t"));
    }
    store.ssh_observations.push(ssh_row("s0", "o0", 500_000));
    store.ssh_observations.push(ssh_row("s1", "o1", 900_000));
    store.ssh_observations.push(ssh_row("s3", "o3", 9_000));
    store.ssh_observations.push(ssh_row("s9", "gone", 900_000));
    prune_at(&mut store, &vec![], &vec![], 10_000, 3, "2024-05-01T00:00:00+00:00");
    let kept: Vec<&str> = store.observations.iter().map(|o| o.id.as_str()).collect();
    assert_eq!(kept, vec!["o1", "o3", "o5"]);
    assert!(store.observations.iter().all(|o| o.weight >= 10_000));
    let kept_ssh: Vec<&str> = store.ssh_observations.iter().map(|o| o.id.as_str()).collect();
    assert_eq!(kept_ssh, vec!["s1"]);
    assert_eq!(store.last_prune.as_deref(), Some("2024-05-01T00:00:00+00:00"));
}

#[test]
fn decay_multiplies_weights_above_the_threshold() {
    let mut store = fresh_db();
    store.observations.push(observation("a", "h", 1_000_000, "t"));
    store.observations.push(observation("b", "h", 10_000, "t"));
    store.observations.push(observation("c", "h", 800_000, "t"));
    store.observations.push(observation("d", "h", 600_001, "t"));
    store.ssh_observations.push(ssh_row("s", "a", 1_000_000));
    apply_decay(&mut store, &vec![500_000, 500_000, 250_000], &vec![125_000], 10_000);
    let weights: Vec<u32> = store.observations.iter().map(|o| o.weight).collect();
    assert_eq!(weights, vec![500_000, 10_000, 200_000, 600_001]);
    assert_eq!(store.ssh_observations[0].weight, 125_000);
    apply_decay(&mut store, &vec![2_000_000, 0, 333_333], &vec![], 0);
    let weights: Vec<u32> = store.observations.iter().map(|o| o.weight).collect();
    assert_eq!(weights, vec![500_000, 0, 66_666, 600_001]);
}

#[test]
fn pruning_is_due_after_the_interval() {
    let hour: u64 = 3_600_000_000;
    let then: u64 = 1_700_000_000_000_000;
    let mut store = fresh_db();
    assert!(should_prune(&store, then, 6));
    store.last_prune = Some("not a time".to_string());
    assert!(should_prune(&store, then, 6));
    store.last_prune = Some("2023-11-14T22:13:20+00:00".to_string());
    assert!(!should_prune(&store, then, 6));
    assert!(should_prune(&store, then, 0));
    assert!(!should_prune(&store, then + 6 * hour - 1, 6));
    assert!(should_prune(&store, then + 6 * hour, 6));
    assert!(!should_prune(&store, then - hour, 1));
    assert!(should_prune(&store, then - hour + 1, 0));
    assert!(!should_prune(&store, then - hour, 0));
}

#[test]
fn maybe_prune_prunes_when_due() {
    let mut store = fresh_db();
    store.observations.push(observation("old1", "hash1", 1_000, "t"));
    assert!(maybe_prune_at(&mut store, &vec![], &vec![], 10_000, 10, 6, 5, "2024-05-01T00:00:00+00:00"));
    assert_eq!(store.observations.len(), 0);
    store.observations.push(observation("old2", "hash1", 1_000, "t"));
    let soon: u64 = 1_714_521_600_000_000 + 60_000_000;
    assert!(!maybe_prune_at(&mut store, &vec![], &vec![], 10_000, 10, 6, soon, "later"));
    assert_eq!(store.observations.len(), 1);
    assert_eq!(store.last_prune.as_deref(), Some("2024-05-01T00:00:00+00:00"));
}
