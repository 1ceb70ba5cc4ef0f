use searchstore::data::{ComputedData, Journey2025IndividualUpdate, Journey2025MainPage,
    ScrapedMainPageEnum, Summer2025IndividualUpdate, Summer2025MainPage};
use searchstore::embedder::{comparare_cos, down_project};
use searchstore::store::Database;
use searchstore::StoreError;

fn summer(url: &str, name: &str, description: &str, followers: u16, time: u32) -> Summer2025MainPage {
    Summer2025MainPage {
        url: url.to_string(),
        main_image: String::new(),
        name: name.to_string(),
        description: description.to_string(),
        author: String::new(),
        followers,
        time,
        readme: None,
        repo: None,
        demo: None,
        updates: Vec::new(),
    }
}

fn journey(id: u32, followers: u16, stonks: u16) -> Journey2025MainPage {
    Journey2025MainPage {
        id,
        main_image: String::new(),
        name: String::new(),
        description: String::new(),
        author: String::new(),
        followers,
        stonks,
        time: String::new(),
        readme: None,
        repo: None,
        demo: None,
        updates: Vec::new(),
    }
}

fn computed(fill: u32) -> ComputedData {
    ComputedData { embedding: vec![fill; 768], ai_description: 1, ai_code: 2 }
}

#[test]
fn scenario_robot_simulator() {
    // title match 5.11, description match 3.27, followers min(10/4.5, 4.3),
    // time min(5000/8000, 4.6), description-length min(sqrt(27/90), 1.2)
    let p = summer("u1", "robot simulator", "a sand simulator for robots", 10, 5000);
    let r = p.rank(&"simulator".to_string(), None);
    assert_eq!(r, 51100 + 32700 + 22222 + 6250 + 5477);
    assert!(r > 0);

    let mut d = Database::new_non_backed();
    d.add_entry(ScrapedMainPageEnum::Summer2025(p));
    let res = d.search_and_rank(&"simulator".to_string(), 1);
    assert_eq!(res.len(), 1);
    assert_eq!(res[0].id, 0);
    assert_eq!(res[0].rank, 117749);
    assert_eq!(res[0].event, "u1");
    assert_eq!(res[0].page.name, "robot simulator");
    assert_eq!(res[0].page.props, "updates: 0");
}

#[test]
fn rank_is_case_insensitive() {
    let p = summer("u1", "Robot SIMULATOR", "a sand simulator for robots", 10, 5000);
    let r = p.rank(&"SiMuLaToR".to_string(), None);
    assert_eq!(r, 117749);
}

#[test]
fn rank_hyphens_split_terms() {
    let p = summer("u1", "robot simulator", "a sand simulator for robots", 10, 5000);
    let r1 = p.rank(&"robot-simulator".to_string(), None);
    let r2 = p.rank(&"robot simulator".to_string(), None);
    assert_eq!(r1, r2);
}

#[test]
fn rank_decay_weights_later_terms_less() {
    let p = summer("u", "alpha beta", "", 0, 2000);
    // first term weight 1.0; second decays to 0.45 + 0.55 * 4/5
    let one = p.rank(&"alpha".to_string(), None);
    let two = p.rank(&"beta alpha".to_string(), None);
    assert!(two < 2 * one && two > one);
}

#[test]
fn rank_update_bonus_needs_base_relevance() {
    let mut low = summer("u", "none here", "nothing", 0, 2000);
    low.updates.push(Summer2025IndividualUpdate {
        time: 1,
        message: "simulator progress".to_string(),
        image: None,
    });
    // base relevance is zero, so the matching update message adds nothing
    // and the record takes the punitive drop instead
    let r_low = low.rank(&"simulator".to_string(), None);
    assert!(r_low < 0);

    let mut high = summer("u", "simulator", "simulator", 0, 2000);
    high.updates.push(Summer2025IndividualUpdate {
        time: 1,
        message: "simulator progress".to_string(),
        image: None,
    });
    let mut high_no_upd = summer("u", "simulator", "simulator", 0, 2000);
    high_no_upd.updates.push(Summer2025IndividualUpdate {
        time: 1,
        message: "other words".to_string(),
        image: None,
    });
    let with_hit = high.rank(&"simulator".to_string(), None);
    let without_hit = high_no_upd.rank(&"simulator".to_string(), None);
    assert_eq!(with_hit - without_hit, 9652);
}

#[test]
fn rank_mojibake_penalty() {
    let clean = summer("u", "simulator", "a simulator story", 0, 2000);
    let dirty = summer("u", "simulator", "a simulator story \u{e2}\u{20ac}\u{201d} part", 0, 2000);
    let rc = clean.rank(&"simulator".to_string(), None);
    let rd = dirty.rank(&"simulator".to_string(), None);
    // the dirty text is also longer, so compare after removing the
    // description-length bonus difference
    let clean_len_bonus = isqrt(17 * 100_000_000u64 / 90) as i64;
    let dirty_len_bonus = isqrt(31 * 100_000_000u64 / 90) as i64;
    assert_eq!(rc - clean_len_bonus, rd - dirty_len_bonus + 8000);
}

fn isqrt(n: u64) -> u64 {
    let mut r: u64 = 0;
    while (r + 1) * (r + 1) <= n {
        r += 1;
    }
    r
}

#[test]
fn rank_demo_bonus() {
    let plain = summer("u", "simulator", "text", 0, 2000);
    let mut with_demo = summer("u", "simulator", "text", 0, 2000);
    with_demo.demo = Some("https://example.test".to_string());
    let a = plain.rank(&"simulator".to_string(), None);
    let b = with_demo.rank(&"simulator".to_string(), None);
    assert_eq!(b - a, 8500);
}

#[test]
fn journey_rank_ignores_query() {
    let j = journey(7, 7, 3);
    assert_eq!(j.rank(&"anything".to_string(), None), 7 * 10000 + 3 * 2000);
    assert_eq!(j.rank(&String::new(), None), 76000);
}

#[test]
fn unique_keys() {
    assert_eq!(journey(42, 0, 0).unique_string().0, "42");
    assert_eq!(summer("https://x.test/p", "", "", 0, 0).unique_string().0, "https://x.test/p");
}

#[test]
fn upsert_existing_key_overwrites_in_place() {
    let mut d = Database::new_non_backed();
    d.add_entry(ScrapedMainPageEnum::Summer2025(summer("k1", "first", "", 0, 5000)));
    d.add_entry(ScrapedMainPageEnum::Summer2025(summer("k2", "other", "", 0, 5000)));
    d.set_extras(0, computed(3)).unwrap();
    // same key: overwrite position 0, clear its computed data
    d.add_entry(ScrapedMainPageEnum::Summer2025(summer("k1", "second", "", 0, 5000)));
    let all = d.search_and_rank(&String::new(), 10);
    assert_eq!(all.len(), 2);
    assert_eq!(all.iter().filter(|r| r.page.name == "second").count(), 1);
    assert_eq!(all.iter().filter(|r| r.page.name == "first").count(), 0);
    // the snapshot shows the cleared sidecar slot
    let snap = d.to_snapshot();
    assert!(snap.contains("null"));
    assert!(!snap.contains("embedding"));
}

#[test]
fn upsert_new_key_appends() {
    let mut d = Database::new_non_backed();
    d.add_entry(ScrapedMainPageEnum::Summer2025(summer("k1", "a", "", 0, 5000)));
    d.add_entry(ScrapedMainPageEnum::Summer2025(summer("k2", "b", "", 0, 5000)));
    d.add_entry(ScrapedMainPageEnum::Journey2025(journey(5, 1, 1)));
    let all = d.search_and_rank(&String::new(), 10);
    assert_eq!(all.len(), 3);
    assert_eq!(all.iter().map(|r| r.id).max(), Some(2));
}

#[test]
fn save_then_load_reproduces_store() {
    let mut d = Database::new_non_backed();
    let mut p1 = summer("k1", "name one", "desc \"quoted\" and \u{1F600}", 9, 1234);
    p1.readme = Some("readme text".to_string());
    p1.updates.push(Summer2025IndividualUpdate {
        time: 77,
        message: "did a thing".to_string(),
        image: Some("img".to_string()),
    });
    d.add_entry(ScrapedMainPageEnum::Summer2025(p1));
    let mut j = journey(11, 3, 4);
    j.updates.push(Journey2025IndividualUpdate {
        time: "yesterday".to_string(),
        message: "hello".to_string(),
        attatchments: vec!["a.png".to_string(), "b.png".to_string()],
    });
    d.add_entry(ScrapedMainPageEnum::Journey2025(j));
    d.set_extras(1, computed(7)).unwrap();

    let snap = d.to_snapshot();
    let d2 = Database::from_snapshot(snap.as_str());
    let snap2 = d2.to_snapshot();
    assert_eq!(snap, snap2);
    // the rebuilt store answers like the original
    let a1 = d.search_and_rank(&String::new(), 10);
    let a2 = d2.search_and_rank(&String::new(), 10);
    assert_eq!(a1.len(), a2.len());
    for (x, y) in a1.iter().zip(a2.iter()) {
        assert_eq!(x.id, y.id);
        assert_eq!(x.rank, y.rank);
        assert_eq!(x.event, y.event);
    }
}

#[test]
fn corrupt_snapshot_loads_empty() {
    let d = Database::from_snapshot("{not a snapshot");
    assert_eq!(d.search_and_rank(&String::new(), 10).len(), 0);
    let d2 = Database::from_snapshot("");
    assert_eq!(d2.search_and_rank(&String::new(), 10).len(), 0);
}

#[test]
fn search_sorted_and_bounded() {
    let mut d = Database::new_non_backed();
    d.add_entry(ScrapedMainPageEnum::Journey2025(journey(1, 10, 0)));
    d.add_entry(ScrapedMainPageEnum::Journey2025(journey(2, 30, 0)));
    d.add_entry(ScrapedMainPageEnum::Journey2025(journey(3, 20, 0)));
    d.add_entry(ScrapedMainPageEnum::Journey2025(journey(4, 30, 0)));
    let res = d.search_and_rank(&String::new(), 3);
    assert_eq!(res.len(), 3);
    // sorted descending by score, ties broken by ascending position
    assert_eq!(res[0].id, 1);
    assert_eq!(res[1].id, 3);
    assert_eq!(res[2].id, 2);
    assert!(res[0].rank >= res[1].rank && res[1].rank >= res[2].rank);
    let top_all = d.search_and_rank(&String::new(), 10);
    assert_eq!(top_all.len(), 4);
}

#[test]
fn nonempty_query_filters_negative_scores() {
    let mut d = Database::new_non_backed();
    d.add_entry(ScrapedMainPageEnum::Summer2025(summer("k1", "x", "", 0, 0)));
    let hits = d.search_and_rank(&"zzz".to_string(), 5);
    assert_eq!(hits.len(), 0);
    // an empty query is unfiltered
    let all = d.search_and_rank(&String::new(), 5);
    assert_eq!(all.len(), 1);
    assert!(all[0].rank < 0);
}

#[test]
fn augment_out_of_range_is_not_found() {
    let mut d = Database::new_non_backed();
    d.add_entry(ScrapedMainPageEnum::Journey2025(journey(1, 0, 0)));
    assert_eq!(d.set_extras(0, computed(1)), Ok(()));
    assert_eq!(d.set_extras(1, computed(1)), Err(StoreError::NotFound));
    assert_eq!(d.set_extras(99, computed(1)), Err(StoreError::NotFound));
}

#[test]
fn down_project_length_and_means() {
    let v: Vec<i64> = (1..=10).map(|x| x * 10000).collect();
    for n in 1..=10usize {
        assert_eq!(down_project(&v, n).len(), n);
    }
    let r = down_project(&[10000, 20000, 30000, 40000], 2);
    assert_eq!(r, vec![15000, 35000]);
}

#[test]
fn cosine_self_is_one_and_zero_vector_is_zero() {
    let v: Vec<i64> = vec![10000, 10000];
    let r = comparare_cos(&v, &v);
    assert_eq!(r, 10000);
    let bigger: Vec<i64> = vec![10000, -20000, 30000, 5];
    let rs = comparare_cos(&bigger, &bigger);
    assert!(10000 <= rs && rs <= 10001);
    let zero: Vec<i64> = vec![0, 0];
    assert_eq!(comparare_cos(&v, &zero), 0);
    let empty: Vec<i64> = Vec::new();
    assert_eq!(comparare_cos(&empty, &empty), 0);
}

#[test]
fn cosine_opposite_is_negative() {
    let v: Vec<i64> = vec![10000, 20000];
    let w: Vec<i64> = vec![-10000, -20000];
    let r = comparare_cos(&v, &w);
    assert!(r <= -9999);
}
