use roblox_fast_flag_editor::flags::{Flag, FlagStore};
use roblox_fast_flag_editor::query::{hit_lowered, matches_query, matching_indices};

fn flag(k: &str, v: &str) -> Flag {
    Flag { key: k.to_string(), value: v.to_string(), dirty: false }
}

#[test]
fn empty_query_matches_everything() {
    assert!(matches_query(&flag("A", "1"), ""));
    assert!(matches_query(&flag("", ""), ""));
}

#[test]
fn query_matches_key_or_value_ignoring_case() {
    let f = flag("FFlagDebugGraphicsPreferVulkan", "True");
    assert!(matches_query(&f, "vulkan"));
    assert!(matches_query(&f, "FFLAG"));
    assert!(matches_query(&f, "tru"));
    assert!(!matches_query(&f, "fps"));
    assert!(matches_query(&flag("ÉTAT", "x"), "é"));
}

#[test]
fn hit_lowered_is_plain_containment() {
    assert!(hit_lowered("abc", "xyz", "bc"));
    assert!(hit_lowered("abc", "xyz", "y"));
    assert!(!hit_lowered("abc", "xyz", "B"));
    assert!(hit_lowered("abc", "xyz", ""));
}

#[test]
fn matching_indices_in_order() {
    let mut store = FlagStore::new();
    assert!(store
        .parse_json(r#"{"FIntTaskSchedulerTargetFps": 144, "FLogNetwork": 0, "FIntRenderLocalLightUpdatesMax": 8}"#)
        .is_ok());
    assert_eq!(matching_indices(store.flags(), "fint"), vec![0, 1]);
    assert_eq!(matching_indices(store.flags(), ""), vec![0, 1, 2]);
    assert_eq!(matching_indices(store.flags(), "144"), vec![1]);
    assert_eq!(matching_indices(store.flags(), "zzz"), Vec::<usize>::new());
}

#[test]
fn queries_differing_in_case_match_alike() {
    let flags = [flag("FFlagDisableNewIGMinDUA", "true"), flag("FLogNetwork", "0"), flag("X", "Vulkan")];
    for f in &flags {
        assert_eq!(matches_query(f, "fflag"), matches_query(f, "FFLAG"));
        assert_eq!(matches_query(f, "VULKAN"), matches_query(f, "vulkan"));
    }
    assert!(matches_query(&flags[2], "VULKAN"));
}

#[test]
fn capitalised_key_and_edit_marker_do_not_change_matches() {
    let f = flag("FIntTaskSchedulerTargetFps", "144");
    let up = Flag { key: f.key.to_ascii_uppercase(), value: f.value.clone(), dirty: !f.dirty };
    for q in ["fps", "Target", "144", "zzz", "TASKS"] {
        assert_eq!(matches_query(&f, q), matches_query(&f, &q.to_ascii_uppercase()));
        assert_eq!(matches_query(&f, q), matches_query(&up, q));
    }
}

#[test]
fn longer_query_matches_no_more_flags() {
    let flags = [flag("FIntTaskSchedulerTargetFps", "144"), flag("FLogNetwork", "0"), flag("FFlagFpsCap", "true")];
    for f in &flags {
        if matches_query(f, "TargetFps") {
            assert!(matches_query(f, "fps"));
        }
    }
    assert_eq!(matching_indices(&flags.to_vec(), "fps"), vec![0, 2]);
    assert_eq!(matching_indices(&flags.to_vec(), "targetfps"), vec![0]);
}
