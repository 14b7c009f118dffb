use cheaptrip::cluster::{
    attach, describe, nearest_neighbor_dists, median_pair, run_cluster, Attachment, ClusterOut,
    ClusterPois, Distance, Poi,
};
use cheaptrip::linkage::single_link_clusters;

fn dist_km(lon1: f64, lat1: f64, lon2: f64, lat2: f64) -> f64 {
    let r = 6371.0_f64;
    let la1 = lat1.to_radians();
    let la2 = lat2.to_radians();
    let dla = la2 - la1;
    let dlo = (lon2 - lon1).to_radians();
    let a = (dla / 2.0).sin().powi(2) + la1.cos() * la2.cos() * (dlo / 2.0).sin().powi(2);
    2.0 * r * a.sqrt().asin()
}

type Place<'a> = (&'a str, f64, f64);

fn distance(d: f64) -> Distance {
    Distance {
        key: d.to_bits(),
        reach: (d * 2.0 + 1e-9).to_bits(),
        text: format!("{d:.0}"),
    }
}

fn version(pois: &[Place], anchors: &[Place], t: f64) -> ClusterOut {
    let own: Vec<Poi> = pois
        .iter()
        .map(|p| Poi { name: p.0.into(), lon: p.1.to_bits(), lat: p.2.to_bits() })
        .collect();
    let d: Vec<Vec<u64>> = pois
        .iter()
        .map(|a| pois.iter().map(|b| dist_km(a.1, a.2, b.1, b.2).to_bits()).collect())
        .collect();
    let to_anchors: Vec<Vec<u64>> = anchors
        .iter()
        .map(|a| pois.iter().map(|p| dist_km(a.1, a.2, p.1, p.2).to_bits()).collect())
        .collect();
    let placement = run_cluster(&own, &d, &to_anchors, t.to_bits());
    let centers: Vec<(f64, f64)> = placement
        .regions
        .iter()
        .map(|r| match r.anchor {
            Some(a) => (anchors[a].1, anchors[a].2),
            None => {
                let n = r.members.len() as f64;
                (
                    r.members.iter().map(|&i| pois[i].1).sum::<f64>() / n,
                    r.members.iter().map(|&i| pois[i].2).sum::<f64>() / n,
                )
            }
        })
        .collect();
    let center_texts = centers
        .iter()
        .map(|c| (format!("{:.4}", c.0), format!("{:.4}", c.1)))
        .collect();
    let ds = placement
        .scattered
        .iter()
        .map(|&i| {
            centers
                .iter()
                .map(|c| distance(dist_km(pois[i].1, pois[i].2, c.0, c.1)))
                .collect()
        })
        .collect();
    let anchor_names = anchors.iter().map(|a| a.0.to_string()).collect();
    describe(
        &placement.regions,
        &placement.scattered,
        &own,
        &anchor_names,
        format!("{t:.1}"),
        &center_texts,
        &ds,
    )
}

fn execute(pois: &[Place], anchors: &[Place], min_regions: Option<usize>) -> String {
    let own: Vec<Poi> = pois
        .iter()
        .map(|p| Poi { name: p.0.into(), lon: p.1.to_bits(), lat: p.2.to_bits() })
        .collect();
    let anchor_names: Vec<String> = anchors.iter().map(|a| a.0.to_string()).collect();
    let place = match pois.first() {
        Some(p) => (format!("{:.4}", p.1), format!("{:.4}", p.2)),
        None => (String::new(), String::new()),
    };
    if let Some(s) = ClusterPois::early(&own, &anchor_names, &place) {
        return s;
    }
    let d: Vec<Vec<u64>> = pois
        .iter()
        .map(|a| pois.iter().map(|b| dist_km(a.1, a.2, b.1, b.2).to_bits()).collect())
        .collect();
    let (lo, hi) = median_pair(&nearest_neighbor_dists(&own, &d));
    let median = (f64::from_bits(lo) + f64::from_bits(hi)) / 2.0;
    let t = (median * 2.5).clamp(5.0, 25.0);
    let first = version(pois, anchors, t);
    let second = if ClusterPois::needs_second(first.regions.len(), min_regions) {
        Some(version(pois, anchors, (t * 0.6).max(1.0)))
    } else {
        None
    };
    ClusterPois::report(&first, &second, min_regions.unwrap_or(0))
}

#[test]
fn single_link_clusters_basic() {
    let pts: [f64; 5] = [0.0, 1.0, 2.0, 10.0, 11.0];
    let table = |p: &[f64]| -> Vec<Vec<u64>> {
        p.iter()
            .map(|a| p.iter().map(|b| (a - b).abs().to_bits()).collect())
            .collect()
    };
    let clusters = single_link_clusters(&table(&pts), 1.5f64.to_bits());
    assert_eq!(clusters, vec![vec![0, 1, 2], vec![3, 4]]);
    let single = single_link_clusters(&table(&pts), 0.5f64.to_bits());
    assert_eq!(single, vec![vec![0], vec![1], vec![2], vec![3], vec![4]]);
    let chain: [f64; 3] = [0.0, 2.0, 4.0];
    let linked = single_link_clusters(&table(&chain), 2.0f64.to_bits());
    assert_eq!(linked, vec![vec![0, 1, 2]]);
    assert!(single_link_clusters(&vec![], 1.0f64.to_bits()).is_empty());
}

#[test]
fn two_cities_not_bridged() {
    let out = execute(
        &[
            ("宝塔山", 109.49, 36.60),
            ("延安革命纪念馆", 109.47, 36.62),
            ("镇北台", 109.75, 38.30),
            ("榆林老街", 109.76, 38.28),
            ("波浪谷", 108.85, 37.58),
            ("壶口瀑布", 110.47, 36.13),
            ("沙坡头", 105.19, 37.50),
        ],
        &[("延安市区", 109.49, 36.60), ("榆林市区", 109.75, 38.29)],
        None,
    );
    assert!(out.contains("延安市区"), "缺 anchor 区:\n{out}");
    assert!(out.contains("榆林市区"), "缺 anchor 区:\n{out}");
    // 防桥接：两市各自成区，中间散点没有把它们并起来
    assert_eq!(
        out.matches("（anchor）").count(),
        2,
        "anchor 区数应为2:\n{out}"
    );
    // 波浪谷多归属（延安+榆林都在 2×dmin 内）
    let blg_row = out
        .lines()
        .find(|l| l.contains("波浪谷"))
        .expect("波浪谷行");
    assert!(
        blg_row.contains("延安") && blg_row.contains("榆林"),
        "波浪谷应多归属: {blg_row}"
    );
    // 壶口瀑布最近为延安
    let hk_row = out
        .lines()
        .find(|l| l.contains("壶口瀑布"))
        .expect("壶口行");
    assert!(hk_row.contains("延安"), "壶口应挂靠延安: {hk_row}");
    // 沙坡头距所有区 >150km → 远散点
    assert!(
        out.contains("远散点") && out.contains("沙坡头"),
        "沙坡头应为远散点:\n{out}"
    );
}

#[test]
fn sparse_chain_cannot_bridge() {
    let out = execute(
        &[
            ("A城景点1", 109.0, 36.0),
            ("A城景点2", 109.2, 36.0),
            ("链点1", 109.5, 36.9),
            ("链点2", 109.8, 37.8),
            ("链点3", 110.1, 38.7),
            ("B城景点1", 110.4, 39.6),
            ("B城景点2", 110.6, 39.6),
        ],
        &[("A城", 109.1, 36.0), ("B城", 110.5, 39.6)],
        None,
    );
    assert_eq!(
        out.matches("（anchor）").count(),
        2,
        "两市应各自成区:\n{out}"
    );
    // 链点不会让两市合并——只在散点挂靠段出现
    assert!(out.contains("散点挂靠"), "应有散点段:\n{out}");
}

#[test]
fn min_regions_retry() {
    let out = execute(
        &[
            ("p1", 109.0, 36.0),
            ("p2", 109.0, 36.08),
            ("p3", 109.0, 36.24),
            ("p4", 109.0, 36.32),
        ],
        &[],
        Some(2),
    );
    assert!(out.contains("⚠"), "应输出警告:\n{out}");
    assert!(out.contains("第二版"), "应输出第二版:\n{out}");
}

#[test]
fn anchor_absorb_no_duplicate_members() {
    let out = execute(
        &[
            ("市区A", 109.0, 36.0),
            ("市区B", 109.05, 36.0),
            ("远点", 109.28, 36.0),
        ],
        &[("市区", 109.0, 36.0)],
        None,
    );
    for line in out.lines().filter(|l| l.contains("区内点")) {
        assert!(line.matches("市区A").count() <= 1, "成员重复: {line}");
        assert!(line.matches("市区B").count() <= 1, "成员重复: {line}");
    }
    // 远点 25km ≤ 30km 已被按点吸收，不应再出现在散点挂靠段
    assert!(!out.contains("- 远点 →"), "已吸收点不应挂靠:\n{out}");
}

#[test]
fn all_scattered_no_anchor() {
    let out = execute(
        &[
            ("甲", 100.0, 30.0),
            ("乙", 102.0, 32.0),
            ("丙", 104.0, 34.0),
        ],
        &[],
        None,
    );
    assert!(out.contains("散点挂靠"), "应输出散点段:\n{out}");
    assert!(out.contains("甲") && out.contains("乙") && out.contains("丙"));
}

#[test]
fn calls_without_a_clustering() {
    assert_eq!(execute(&[], &[], None), "聚类失败：pois 为空");
    assert_eq!(
        execute(&[("甲", 100.0, 30.0)], &[], None),
        "仅 1 个点「甲」(100.0000,30.0000)，无法聚类；该点按孤立点位处理，请结合攻略判断归属。"
    );
    assert_eq!(
        execute(
            &[("甲", 100.0, 30.0), ("乙", 101.0, 30.0)],
            &[("区", 1.0, 1.0), ("区", 2.0, 2.0)],
            None
        ),
        "聚类失败：anchors 名称「区」重复"
    );
}

#[test]
fn points_are_attached_to_the_nearest() {
    match attach(&vec![distance(50.0), distance(30.0), distance(70.0), distance(60.0)]) {
        Attachment::Near(v) => assert_eq!(v, vec![1, 0, 3]),
        _ => panic!(),
    }
    assert!(matches!(attach(&vec![distance(200.0), distance(151.0)]), Attachment::Far(1)));
    assert!(matches!(attach(&vec![]), Attachment::Alone));
}

#[test]
fn every_point_has_one_place() {
    let pois: Vec<Poi> = (0..4u64)
        .map(|i| Poi { name: format!("{i}"), lon: i, lat: 0 })
        .collect();
    // Points 0 and 1 are near each other, 2 is near the anchor, 3 is alone.
    let d = |a: usize, b: usize| -> u64 {
        if a == b {
            0.0f64.to_bits()
        } else if a + b == 1 {
            4.0f64.to_bits()
        } else {
            100.0f64.to_bits()
        }
    };
    let table: Vec<Vec<u64>> = (0..4).map(|a| (0..4).map(|b| d(a, b)).collect()).collect();
    let anchors = vec![vec![
        90.0f64.to_bits(),
        90.0f64.to_bits(),
        30.0f64.to_bits(),
        31.0f64.to_bits(),
    ]];
    let out = run_cluster(&pois, &table, &anchors, 5.0f64.to_bits());
    assert_eq!(out.regions.len(), 2);
    assert_eq!(out.regions[0].anchor, Some(0));
    assert_eq!(out.regions[0].members, vec![2]);
    assert_eq!(out.regions[1].anchor, None);
    assert_eq!(out.regions[1].members, vec![0, 1]);
    assert_eq!(out.scattered, vec![3]);
}

#[test]
fn clusters_near_an_anchor_join_it_whole() {
    let pois: Vec<Poi> = (0..6u64)
        .map(|i| Poi { name: format!("{i}"), lon: i, lat: 0 })
        .collect();
    // Points 0 to 3 stand in a row, 4 kilometres apart; 4 and 5 are near each other, far from those.
    let at = [0.0f64, 4.0, 8.0, 12.0, 200.0, 204.0];
    let table: Vec<Vec<u64>> = at
        .iter()
        .map(|a| at.iter().map(|b| (a - b).abs().to_bits()).collect())
        .collect();
    let from = |x: f64| -> Vec<u64> { at.iter().map(|a| (a - x).abs().to_bits()).collect() };
    // The first anchor reaches point 3 and, more closely, the second reaches point 0.
    let out = run_cluster(&pois, &table, &vec![from(40.0), from(-27.0)], 5.0f64.to_bits());
    assert_eq!(out.regions.len(), 3);
    assert_eq!(out.regions[0].members, vec![3]);
    assert_eq!(out.regions[1].members, vec![0, 1, 2]);
    assert_eq!(out.regions[2].anchor, None);
    assert_eq!(out.regions[2].members, vec![4, 5]);
    assert!(out.scattered.is_empty());
    // An anchor that reaches no point of a cluster leaves it a region of its own.
    let out = run_cluster(&pois, &table, &vec![from(43.0)], 5.0f64.to_bits());
    assert!(out.regions[0].members.is_empty());
    assert_eq!(out.regions[1].members, vec![0, 1, 2, 3]);
}
