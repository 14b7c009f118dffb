use cheaptrip::city::{
    after_paths, build_paths_param, check_picture, check_zoom, city_name, clean_label_name,
    compute_zoom_fit, diameter, draw_city_map, estimate_path_groups, found_way, hex_to_rgba,
    map_failure, mode_color_hex, mode_display, parse_polyline, picture_params, place_of,
    way_failure, CityRun, GenerateCityMap, PATHS_BUDGET, PathsStep, PoiNode, RouteData, TOO_LARGE,
};
use cheaptrip::cluster::Poi;
use cheaptrip::legend::{
    add_item, draw_flow_legend, flow_legend_band, flow_legend_box_h, legend_rows, legend_units,
    measure, measure_at, usable_font, Figure, LegendItem, MARGIN, Mark, PAD, RING, ROW_HEIGHT,
    Shape,
};
use cheaptrip::overview::{
    focus_points, group_overlaps, label_plan, map_path, pack_summary, parse_point_type, report,
    scan_max_index, GenerateMap, PointKind, PointNode, RouteSeg,
};
use cheaptrip::scene::{
    compass, hub_marker, hub_reach, lanes, palette, point_marker, remote_targets, render_scene,
    label_stands_left, stroke_color, stroke_radius, Op, DASH_GAP,
};
use cheaptrip::simplify::dp_simplify;
use cheaptrip::transit::{
    after_path_reply, after_transit_reply, classify_transit_plan, planner, planner_params,
    planner_url, BusLine, PathReply, Planner, TransitPlan, TransitReply, TransitSegment, WayStep,
};

fn value(s: &str) -> serde_json::Value {
    serde_json::from_str(s).unwrap()
}

fn strings(v: &[&str]) -> Vec<String> {
    v.iter().map(|s| s.to_string()).collect()
}

fn table(tag: &[u8; 4], data: Vec<u8>) -> ([u8; 4], Vec<u8>) {
    (*tag, data)
}

/// A font in which every character is as wide as the font is high and none has an outline.
fn square_font() -> Vec<u8> {
    let mut head = vec![0u8; 54];
    head[0..4].copy_from_slice(&[0, 1, 0, 0]);
    head[12..16].copy_from_slice(&[0x5F, 0x0F, 0x3C, 0xF5]);
    head[18..20].copy_from_slice(&1000u16.to_be_bytes());
    let mut hhea = vec![0u8; 36];
    hhea[0..4].copy_from_slice(&[0, 1, 0, 0]);
    hhea[4..6].copy_from_slice(&800i16.to_be_bytes());
    hhea[6..8].copy_from_slice(&(-200i16).to_be_bytes());
    hhea[34..36].copy_from_slice(&2u16.to_be_bytes());
    let maxp = vec![0, 0, 0x50, 0, 0, 2];
    let mut hmtx = Vec::new();
    for _ in 0..2 {
        hmtx.extend_from_slice(&1000u16.to_be_bytes());
        hmtx.extend_from_slice(&[0, 0]);
    }
    let mut cmap = vec![0, 0, 0, 1, 0, 3, 0, 10, 0, 0, 0, 12];
    cmap.extend_from_slice(&[0, 13, 0, 0]);
    cmap.extend_from_slice(&28u32.to_be_bytes());
    cmap.extend_from_slice(&0u32.to_be_bytes());
    cmap.extend_from_slice(&1u32.to_be_bytes());
    cmap.extend_from_slice(&0x20u32.to_be_bytes());
    cmap.extend_from_slice(&0xFFFFu32.to_be_bytes());
    cmap.extend_from_slice(&1u32.to_be_bytes());
    let tables = vec![
        table(b"cmap", cmap),
        table(b"head", head),
        table(b"hhea", hhea),
        table(b"hmtx", hmtx),
        table(b"maxp", maxp),
    ];
    let mut font = vec![0, 1, 0, 0];
    font.extend_from_slice(&(tables.len() as u16).to_be_bytes());
    font.extend_from_slice(&[0; 6]);
    let mut at = 12 + 16 * tables.len();
    for (tag, data) in &tables {
        font.extend_from_slice(tag);
        font.extend_from_slice(&[0; 4]);
        font.extend_from_slice(&(at as u32).to_be_bytes());
        font.extend_from_slice(&(data.len() as u32).to_be_bytes());
        at += (data.len() + 3) / 4 * 4;
    }
    for (_, data) in &tables {
        font.extend_from_slice(data);
        while font.len() % 4 != 0 {
            font.push(0);
        }
    }
    font
}

fn item(mark: Mark, text: &str) -> LegendItem {
    LegendItem { mark, text: text.into() }
}

fn hub(name: &str, lon: f64, lat: f64) -> Poi {
    Poi { name: name.into(), lon: lon.to_bits(), lat: lat.to_bits() }
}

fn point_at(name: &str, lon: f64, lat: f64) -> PointNode {
    PointNode {
        name: name.into(),
        lon: lon.to_bits(),
        lat: lat.to_bits(),
        point_type: None,
        hubs: None,
    }
}

fn seg(from: &str, to: &str, t: Option<&str>) -> RouteSeg {
    RouteSeg {
        from: from.into(),
        to: to.into(),
        transport: t.map(|s| s.into()),
    }
}

fn dist_km(lon1: f64, lat1: f64, lon2: f64, lat2: f64) -> f64 {
    let r = 6371.0_f64;
    let la1 = lat1.to_radians();
    let la2 = lat2.to_radians();
    let dla = la2 - la1;
    let dlo = (lon2 - lon1).to_radians();
    let a = (dla / 2.0).sin().powi(2) + la1.cos() * la2.cos() * (dlo / 2.0).sin().powi(2);
    2.0 * r * a.sqrt().asin()
}

fn row(p: &PointNode, hubs: &[Poi]) -> Vec<u64> {
    hubs.iter()
        .map(|h| {
            dist_km(
                f64::from_bits(h.lon),
                f64::from_bits(h.lat),
                f64::from_bits(p.lon),
                f64::from_bits(p.lat),
            )
            .to_bits()
        })
        .collect()
}

fn limit(row: &[u64]) -> u64 {
    let dmin = row.iter().map(|b| f64::from_bits(*b)).fold(f64::INFINITY, f64::min);
    (dmin * 2.0 + 1e-9).to_bits()
}

// ---- The legend ----

#[test]
fn flow_legend_wraps_overlong_items() {
    let font = usable_font(Some(square_font())).expect("font");
    let long = "北京动物园→北京植物园→香山公园→八大处公园 骑行";
    let items = vec![
        item(Mark::Plain, "图例"),
        item(Mark::Swatch(0x1D4ED8FF), long),
    ];
    // 窄画布强迫断行：可用宽 = 300 − 2×12 − 2×8 = 260
    let units = legend_units(&items, &font, 300);
    let max_w = 300 - 2 * MARGIN - 2 * PAD;
    for u in &units {
        assert!(u.width <= max_w, "单元超宽：{} > {max_w}", u.width);
    }
    assert!(units.len() > items.len(), "长条目应被拆成多个单元");
    // 首块带前缀（Swatch），续块为纯文本且强制换行
    assert!(matches!(units[1].mark, Mark::Swatch(_)));
    for u in &units[2..] {
        assert!(u.break_before);
        assert!(matches!(u.mark, Mark::Plain));
    }
    // Nothing of the text is lost.
    let all: String = units[1..].iter().map(|u| u.text.as_str()).collect();
    assert_eq!(all, long);
    // 行数 ≥ 2 → 框高大于单行框
    let box_h = flow_legend_box_h(&items, &font, 300);
    assert!(box_h >= PAD * 2 + 2 * ROW_HEIGHT, "box_h={box_h}");
}

#[test]
fn texts_are_measured() {
    let font = square_font();
    assert_eq!(measure(&font, "").0, 0);
    assert_eq!(measure(&font, "图例"), (36, 0));
    // Bytes that are no font measure nothing and are not used.
    assert_eq!(measure(&vec![1, 2, 3], "图例"), (0, 0));
    assert!(usable_font(Some(vec![1, 2, 3])).is_none());
    assert!(usable_font(None).is_none());
}

#[test]
fn units_fill_rows() {
    let font = square_font();
    let items = vec![
        item(Mark::Plain, "一二三四"),
        item(Mark::Dot, "五六"),
        item(Mark::Cross, "七八九"),
    ];
    // Widths 72, 64 and 82; gaps of 18.
    let units = legend_units(&items, &font, 200);
    let widths: Vec<_> = units.iter().map(|u| u.width).collect();
    assert_eq!(widths, vec![72, 64, 82]);
    assert_eq!(legend_rows(&units, 160), vec![vec![0, 1], vec![2]]);
    assert_eq!(legend_rows(&units, 153), vec![vec![0], vec![1], vec![2]]);
    assert_eq!(legend_rows(&units, 1000), vec![vec![0, 1, 2]]);
    assert_eq!(flow_legend_box_h(&items, &font, 200), 16 + 56);
    assert_eq!(flow_legend_band(&items, &font, 200), 16 + 56 + 12);
    assert_eq!(flow_legend_box_h(&vec![item(Mark::Plain, "图例")], &font, 200), 0);
}

#[test]
fn the_legend_is_drawn() {
    let font = square_font();
    let mut items: Vec<LegendItem> = Vec::new();
    add_item(&mut items, Mark::Plain, "图例");
    assert!(draw_flow_legend(&items, &font, 200, 100).is_empty());
    add_item(&mut items, Mark::Square, "站");
    let shapes = draw_flow_legend(&items, &font, 200, 100);
    let figures: Vec<Figure> = shapes
        .iter()
        .filter_map(|s| match s {
            Shape::Draw(f) => Some(*f),
            _ => None,
        })
        .collect();
    // One row: 16 + 28 high, 12 above the foot; words 14 below the top of the row.
    assert_eq!(
        figures,
        vec![
            Figure::Wash { x: 12, y: 44, w: 176, h: 44 },
            Figure::Frame { x: 12, y: 44, w: 176, h: 44, color: RING },
            Figure::Block { x: 20 + 36 + 18 + 4, y: 66 - 5, w: 10, h: 10, color: RING },
        ]
    );
    let words: Vec<(i128, i128, String)> = shapes
        .into_iter()
        .filter_map(|s| match s {
            Shape::Words { x, y, text, px, color } => {
                assert_eq!((px, color), (18, RING));
                Some((x, y, text))
            }
            _ => None,
        })
        .collect();
    assert_eq!(
        words,
        vec![(20, 66, "图例".to_string()), (20 + 36 + 18 + 28, 66, "站".to_string())]
    );
}

// ---- The overview ----

#[test]
fn scan_max_index_basic() {
    let names = strings(&[
        "overview_1.png",
        "overview_3.png",
        "city_2.png",
        "city_2_c1.png",
        "city_5_c2.png",
        "unrelated.png",
    ]);
    assert_eq!(scan_max_index(&names, "overview"), 3);
    assert_eq!(scan_max_index(&names, "city"), 2); // _c{k} 簇图不计入
    assert_eq!(scan_max_index(&names, "nope"), 0);
    assert_eq!(scan_max_index(&vec![], "overview"), 0);
}

#[test]
fn parse_point_type_aliases() {
    assert_eq!(parse_point_type(Some("station")), PointKind::Station);
    assert_eq!(parse_point_type(Some("高铁站")), PointKind::Station);
    assert_eq!(parse_point_type(Some("airport")), PointKind::Airport);
    assert_eq!(parse_point_type(Some("机场")), PointKind::Airport);
    assert_eq!(parse_point_type(Some("出发地")), PointKind::City);
    assert_eq!(parse_point_type(Some("scenic")), PointKind::Scenic);
    assert_eq!(parse_point_type(None), PointKind::Scenic);
    assert_eq!(parse_point_type(Some("随便写的")), PointKind::Scenic);
}

#[test]
fn hub_radii_rules() {
    let hubs = vec![hub("A", 109.0, 36.0)];
    let radius = |points: &[PointNode]| -> f64 {
        let d: Vec<Vec<u64>> = points.iter().map(|p| row(p, &hubs)).collect();
        (f64::from_bits(hub_reach(&d, 0)) * 1.2).clamp(4.0, 60.0)
    };
    // 区内点 10km / 15km，偏远点 100km
    let far = (109.0 + 100.0 / (111.32 * 36.0_f64.to_radians().cos()), 36.0);
    let points = vec![
        point_at("近1", 109.0, 36.0 + 10.0 / 110.574),
        point_at("近2", 109.0, 36.0 + 15.0 / 110.574),
        point_at("远", far.0, far.1),
    ];
    let r = radius(&points);
    assert!((r - 18.0).abs() < 0.5, "半径应为 15×1.2=18km，实际 {r}");
    // 无区内点 → 下限 4km
    let r2 = radius(&[point_at("远", far.0, far.1)]);
    assert!((r2 - 4.0).abs() < 1e-9, "无区内点半径应为下限 4km");
}

#[test]
fn remote_targets_rules() {
    let hubs = vec![hub("延安", 109.49, 36.60), hub("榆林", 109.75, 38.29)];
    let names = strings(&["延安", "榆林"]);
    let targets_of = |p: &PointNode| {
        let r = row(p, &hubs);
        let l = limit(&r);
        remote_targets(&p.hubs, &names, &r, l)
    };
    // 波浪谷：延安/榆林都在 2×dmin 内 → 多归属
    let blg = point_at("波浪谷", 108.85, 37.58);
    let r = row(&blg, &hubs);
    let d = |i: usize| f64::from_bits(r[i]);
    let targets = targets_of(&blg);
    let dmin = d(0).min(d(1));
    assert_eq!(targets.len(), 2, "波浪谷应多归属（{}km vs {}km）", d(0), d(1));
    assert!(d(0) <= 2.0 * dmin + 1e-9 && d(1) <= 2.0 * dmin + 1e-9);
    // 壶口瀑布：榆林明显更远 → 单归属延安（最近）
    let hk = point_at("壶口瀑布", 110.47, 36.13);
    assert_eq!(targets_of(&hk), vec![0], "壶口应只挂靠最近的延安");
    // 显式 hubs 覆盖：指定榆林 → 只榆林
    let mut explicit = point_at("某点", 109.8, 37.5);
    explicit.hubs = Some(vec!["榆林".into()]);
    assert_eq!(targets_of(&explicit), vec![1]);
    // 空 hubs 数组视为未传 → 自动挂靠（该点到两 hub 都在 2×dmin 内）
    explicit.hubs = Some(Vec::new());
    assert_eq!(targets_of(&explicit).len(), 2);
}

fn rects_overlap(a: (f32, f32, f32, f32), b: (f32, f32, f32, f32)) -> bool {
    const PADDING: f32 = 4.0;
    a.0 - PADDING < b.0 + b.2 + PADDING
        && b.0 - PADDING < a.0 + a.2 + PADDING
        && a.1 - PADDING < b.1 + b.3 + PADDING
        && b.1 - PADDING < a.1 + a.3 + PADDING
}

#[test]
fn label_overlap_grouping() {
    let groups = |rects: &[(f32, f32, f32, f32)]| {
        let d: Vec<Vec<u64>> = rects
            .iter()
            .map(|a| {
                rects
                    .iter()
                    .map(|b| if rects_overlap(*a, *b) { 0 } else { 1 })
                    .collect()
            })
            .collect();
        group_overlaps(&d)
    };
    let rects = vec![
        (0.0, 0.0, 100.0, 30.0),     // 0
        (90.0, 10.0, 100.0, 30.0),   // 1 与 0 相交
        (500.0, 500.0, 100.0, 30.0), // 2 独立
        (30.0, 25.0, 80.0, 30.0),    // 3 与 0、1 都相交 → 链式同组
    ];
    assert_eq!(groups(&rects), vec![vec![0, 1, 3], vec![2]]);
    // 全不相交 → 各自成组
    let far = vec![(0.0, 0.0, 50.0, 20.0), (200.0, 0.0, 50.0, 20.0)];
    assert_eq!(groups(&far), vec![vec![0], vec![1]]);
}

#[test]
fn pack_summary_forms() {
    let entries = vec![
        (true, "郑州市区".to_string()),
        (false, "二七广场".to_string()),
        (false, "郑州火车站".to_string()),
    ];
    let (s, names, anchor) = pack_summary(&entries, &vec![0, 1, 2]);
    assert_eq!(s, "郑州市区（2 处）");
    assert_eq!(names, vec!["二七广场", "郑州火车站"]);
    assert_eq!(anchor, 0);
    // 无 hub：{首点}一带
    let e2 = vec![
        (false, "只有河南戏剧幻城".to_string()),
        (false, "电影小镇".to_string()),
    ];
    let (s2, n2, a2) = pack_summary(&e2, &vec![0, 1]);
    assert_eq!(s2, "只有河南戏剧幻城一带（2 处）");
    assert_eq!(n2.len(), 2);
    assert_eq!(a2, 0);
    // 2 hubs（罕见）：{首hub}等
    let e3 = vec![
        (true, "郑州".to_string()),
        (true, "开封".to_string()),
        (false, "景点".to_string()),
    ];
    let (s3, n3, _) = pack_summary(&e3, &vec![0, 1, 2]);
    assert_eq!(s3, "郑州等（3 处）");
    assert_eq!(n3, vec!["开封", "景点"]);
}

#[test]
fn orders_for_an_overview_are_checked() {
    let hubs = vec![hub("甲", 0.0, 0.0)];
    let check = |points: &Vec<PointNode>, routes: &Vec<RouteSeg>| GenerateMap::check(&hubs, points, routes);
    assert!(check(&vec![point_at("乙", 0.0, 0.0)], &vec![seg("甲", "乙", None)]).is_none());
    assert_eq!(
        GenerateMap::check(&vec![], &vec![], &vec![]).unwrap(),
        "地图生成失败：hubs 与 points 均为空（位置关系图需至少列出 points）"
    );
    assert_eq!(
        check(&vec![point_at("甲", 0.0, 0.0)], &vec![]).unwrap(),
        "地图生成失败：名称「甲」重复"
    );
    assert_eq!(
        check(&vec![], &vec![seg("甲", "甲", None), seg("丙", "甲", None)]).unwrap(),
        "地图生成失败：routes[1].from「丙」不在 hubs/points 中"
    );
    assert_eq!(
        check(&vec![], &vec![seg("甲", "丙", None)]).unwrap(),
        "地图生成失败：routes[0].to「丙」不在 hubs/points 中"
    );
    let mut stray = point_at("乙", 0.0, 0.0);
    stray.hubs = Some(strings(&["甲", "丁"]));
    assert_eq!(
        check(&vec![stray], &vec![]).unwrap(),
        "地图生成失败：point「乙」的 hubs 引用了不存在的区「丁」"
    );
}

#[test]
fn maps_are_numbered_and_told() {
    let mut tool = GenerateMap::new("".into(), "a b".into(), &strings(&["overview_4.png", "city_9.png"]));
    let n = tool.next_number();
    assert_eq!(n, 5);
    let path = map_path("a b", "overview", n, None);
    assert_eq!(path, "maps/a_b/overview_5.png");
    let sub = map_path("a b", "overview", n, Some(1));
    assert_eq!(sub, "maps/a_b/overview_5_c1.png");
    assert_eq!(
        report(&path, 0, 3, 0, &vec![]),
        "已生成位置关系图：maps/a_b/overview_5.png（3 个点位，仅展示大致位置关系）"
    );
    assert_eq!(
        report(&path, 1, 2, 3, &vec![(sub, "甲一带（2 处）".into())]),
        "已生成总览图：maps/a_b/overview_5.png（1 个交通便利区、2 个标注点、3 条大交通）\n放大图：maps/a_b/overview_5_c1.png（甲一带（2 处））"
    );
}

#[test]
fn every_entry_is_labelled() {
    let entries = vec![
        (true, "甲".to_string()),
        (false, "乙".to_string()),
        (false, "丙".to_string()),
    ];
    let groups = vec![vec![0, 2], vec![1]];
    let (singles, packed) = label_plan(&entries, &groups, true);
    assert_eq!(singles, vec![1]);
    assert_eq!(packed.len(), 1);
    assert_eq!((packed[0].summary.as_str(), packed[0].anchor), ("甲（1 处）", 0));
    assert_eq!(packed[0].members, vec![0, 2]);
    let (all, none) = label_plan(&entries, &groups, false);
    assert_eq!(all, vec![0, 2, 1]);
    assert!(none.is_empty());
    let hubs = vec![hub("甲", 1.0, 2.0)];
    let mut p = point_at("丙", 3.0, 4.0);
    p.point_type = Some("station".into());
    let points = vec![point_at("乙", 5.0, 6.0), p];
    let focus = focus_points(&hubs, &points, &packed[0].members);
    assert_eq!(focus[0].name, "甲");
    assert_eq!(focus[0].point_type.as_deref(), Some("city"));
    assert_eq!(f64::from_bits(focus[0].lat), 2.0);
    assert_eq!((focus[1].name.as_str(), focus[1].point_type.as_deref()), ("丙", Some("station")));
}

#[test]
fn ways_between_two_places_lie_apart() {
    let names = strings(&["甲", "乙", "丙"]);
    let routes = vec![
        seg("甲", "乙", Some("高铁")),
        seg("乙", "甲", None),
        seg("乙", "甲", Some("大巴")),
        seg("甲", "丙", Some("飞机")),
    ];
    let l = lanes(&names, &routes);
    // 丙 < 乙 < 甲 in the order of characters.
    assert_eq!((l[0].a, l[0].b), (Some(1), Some(0)));
    assert_eq!((l[1].a, l[1].b), (Some(1), Some(0)));
    let offsets: Vec<_> = l.iter().map(|x| x.offset).collect();
    assert_eq!(offsets, vec![-20, 0, 20, 0]);
    assert_eq!(l[0].words_offset, -40);
    assert_eq!(l[2].words_offset, 0);
    assert_eq!(l[3].words_offset, 0);
    assert_eq!(l[0].color, 0xDC2626FF);
    assert_eq!(palette(7), 0xEC4899FF);
    assert_eq!(palette(8), palette(0));
}

#[test]
fn a_scene_is_put_together() {
    let hubs = vec![hub("郑州", 113.6, 34.7)];
    let mut remote = point_at("嵩山", 113.0, 34.5);
    remote.hubs = Some(strings(&["郑州"]));
    let mut station = point_at("郑州站", 113.6, 34.7);
    station.point_type = Some("station".into());
    let points = vec![station, remote];
    let routes = vec![seg("郑州", "嵩山", Some("大巴"))];
    let d: Vec<Vec<u64>> = points.iter().map(|p| row(p, &hubs)).collect();
    let limits: Vec<u64> = d.iter().map(|r| limit(r)).collect();
    let groups = vec![vec![0, 1], vec![2]];
    let font = Some(square_font());
    let s = render_scene("图例", &hubs, &points, &routes, &d, &limits, &groups, true, &font);
    let texts: Vec<_> = s.items.iter().map(|i| i.text.as_str()).collect();
    assert_eq!(
        texts,
        vec![
            "图例",
            "交通便利区（圈=大致范围）",
            "景点",
            "火车站",
            "辐射关系",
            "郑州（1 处）：郑州站",
            "郑州 → 嵩山 大巴"
        ]
    );
    assert_eq!(
        s.ops,
        vec![
            Op::Grid,
            Op::Circle(0),
            Op::Spoke(1, 0),
            Op::Way(0),
            Op::HubMark(0),
            Op::PointMark(0, PointKind::Station),
            Op::PointMark(1, PointKind::Scenic),
            Op::Label(2),
            Op::GroupLabel(0),
            Op::WayWords(0),
            Op::Degrees,
            Op::Compass,
            Op::Legend,
        ]
    );
    assert_eq!(s.band, flow_legend_band(&s.items, font.as_ref().unwrap(), 1200));
    // Without a font there are no words.
    let bare = render_scene("图例", &hubs, &points, &routes, &d, &limits, &groups, true, &None);
    assert_eq!(bare.ops.len(), 7);
    assert!(bare.packed.is_empty() && bare.band == 0);
    // Points alone: no region is named.
    let alone = vec![point_at("a", 1.0, 1.0)];
    let p = render_scene("T", &vec![], &alone, &vec![], &vec![vec![]], &vec![0], &vec![vec![0]], true, &font);
    let texts: Vec<_> = p.items.iter().map(|i| i.text.as_str()).collect();
    assert_eq!(texts, vec!["T", "城市/候选地", "景点"]);
}

#[test]
fn marks_have_figures() {
    assert_eq!(hub_marker().len(), 3);
    assert_eq!(
        point_marker(PointKind::Scenic)[1],
        Figure::Disc { x: 0, y: 0, r: 4, color: RING }
    );
    assert_eq!(point_marker(PointKind::Airport).len(), 4);
    assert_eq!(point_marker(PointKind::Station).len(), 2);
    assert_eq!(point_marker(PointKind::City).len(), 3);
    assert_eq!(compass().len(), 4);
}

// ---- The city map ----

#[test]
fn estimate_path_groups_basic() {
    // 连续地铁×2 + 打车 → 2 组
    let segs = vec![
        seg("A", "B", Some("地铁")),
        seg("B", "C", Some("地铁")),
        seg("C", "D", Some("打车")),
    ];
    assert_eq!(estimate_path_groups(&segs), 2);
    // 打车/驾车同色 → 合并为 1 组
    let segs = vec![seg("A", "B", Some("打车")), seg("B", "C", Some("驾车"))];
    assert_eq!(estimate_path_groups(&segs), 1);
    // 断链（前段终点 B ≠ 后段起点 C）→ 分 2 组
    let segs = vec![seg("A", "B", Some("地铁")), seg("C", "D", Some("地铁"))];
    assert_eq!(estimate_path_groups(&segs), 2);
    assert_eq!(estimate_path_groups(&vec![]), 0);
}

fn squared(pts: &[(f64, f64)], a: usize, b: usize, i: usize) -> f64 {
    let ((ax, ay), (px, py)) = (pts[a], pts[i]);
    let (dx, dy) = (pts[b].0 - ax, pts[b].1 - ay);
    let seg2 = dx * dx + dy * dy;
    if seg2 == 0.0 {
        (px - ax).powi(2) + (py - ay).powi(2)
    } else {
        let t = (((px - ax) * dx + (py - ay) * dy) / seg2).clamp(0.0, 1.0);
        let (qx, qy) = (ax + t * dx, ay + t * dy);
        (px - qx).powi(2) + (py - qy).powi(2)
    }
}

fn thinned(pts: &[(f64, f64)], tol: f64) -> Vec<(f64, f64)> {
    let keep = dp_simplify(pts.len(), (tol * tol).to_bits(), |a, b, i| {
        squared(pts, a, b, i).to_bits()
    });
    pts.iter().zip(&keep).filter(|(_, k)| **k).map(|(p, _)| *p).collect()
}

#[test]
fn dp_simplify_rules() {
    // 对角直线上的 101 个点 → 只剩两端
    let line: Vec<(f64, f64)> = (0..=100)
        .map(|i| (i as f64 / 100.0, i as f64 / 100.0))
        .collect();
    let out = thinned(&line, 1e-3);
    assert_eq!(out.len(), 2, "共线点应全部坍缩");
    // 拐点偏离弦 0.01：容差 0.005 保留、0.02 坍缩
    let bend = vec![(0.0, 0.0), (0.01, 0.0), (0.02, 0.01), (0.03, 0.0)];
    assert_eq!(thinned(&bend, 0.005).len(), 3, "超容差拐点应保留");
    assert_eq!(thinned(&bend, 0.02).len(), 2, "容差内拐点应坍缩");
    // 端点与退化输入
    assert_eq!(thinned(&bend, 0.005)[0], (0.0, 0.0));
    assert_eq!(thinned(&bend, 0.005)[2], (0.03, 0.0));
    assert_eq!(thinned(&[], 1e-3).len(), 0);
    assert_eq!(thinned(&[(1.0, 2.0)], 1e-3).len(), 1);
    // tol=0 只去共线点，不破坏折点
    let zig = vec![(0.0, 0.0), (1.0, 0.0), (1.0, 1.0)];
    assert_eq!(thinned(&zig, 0.0).len(), 3);
}

fn polyline_to_string(pts: &[(f64, f64)]) -> String {
    pts.iter()
        .map(|(lon, lat)| format!("{lon:.6},{lat:.6}"))
        .collect::<Vec<_>>()
        .join(";")
}

fn points_of(line: &str) -> Vec<(f64, f64)> {
    parse_polyline(line)
        .iter()
        .filter_map(|p| Some((p.0.parse().ok()?, p.1.parse().ok()?)))
        .collect()
}

fn paths_param(routes: &Vec<RouteData>, tol: f64) -> Result<String, String> {
    let segs = routes
        .iter()
        .map(|r| polyline_to_string(&thinned(&points_of(&r.polyline), tol)))
        .collect();
    build_paths_param(routes, &segs)
}

fn paths_param_budgeted(routes: &Vec<RouteData>, base_tol: f64) -> Result<String, String> {
    let mut tol = base_tol;
    let mut tries = 0;
    loop {
        match after_paths(tries, &paths_param(routes, tol)) {
            PathsStep::Done(s) => return Ok(s),
            PathsStep::Fail(e) => return Err(e),
            PathsStep::Thin => tol = if tol <= 0.0 { 1e-4 } else { tol * 2.0 },
        }
        tries += 1;
    }
}

#[test]
fn paths_param_budget_rules() {
    let rd = |polyline: String| {
        vec![RouteData {
            from: "A".into(),
            to: "B".into(),
            mode: Some("打车".into()),
            polyline,
        }]
    };
    // 2000 点正弦抖动 ≈ 40KB 原始参数 → 抽稀后须落回预算内，端点保留
    let pts: Vec<(f64, f64)> = (0..2000)
        .map(|i| {
            let t = i as f64;
            (113.0 + t * 1e-4, 34.0 + (t / 7.0).sin() * 5e-3)
        })
        .collect();
    let s = paths_param_budgeted(&rd(polyline_to_string(&pts)), 1e-6).expect("预算构建失败");
    assert!(s.len() <= PATHS_BUDGET, "应 ≤ 预算，实际 {}", s.len());
    let (first, last) = (pts[0], pts[pts.len() - 1]);
    assert!(s.contains(&polyline_to_string(&[first])), "起点应保留");
    assert!(s.contains(&polyline_to_string(&[last])), "终点应保留");
    // 短参数（远低于预算）不被抽稀破坏：与 tol=0 直构结果一致
    let short: Vec<(f64, f64)> = vec![(113.0, 34.0), (113.01, 34.008), (113.02, 34.0)];
    let a = paths_param_budgeted(&rd(polyline_to_string(&short)), 1e-6).unwrap();
    let b = paths_param(&rd(polyline_to_string(&short)), 0.0).unwrap();
    assert_eq!(a, b);
    // 幅度 0.2° 的锯齿在最大容差下仍无法压缩 → 报错而非静默截断
    let zig: Vec<(f64, f64)> = (0..2000)
        .map(|i| {
            (
                113.0 + i as f64 * 1e-4,
                34.0 + if i % 2 == 0 { 0.1 } else { -0.1 },
            )
        })
        .collect();
    assert!(paths_param_budgeted(&rd(polyline_to_string(&zig)), 1e-6).is_err());
}

#[test]
fn lines_that_go_on_are_drawn_as_one() {
    let rd = |from: &str, to: &str, mode: &str| RouteData {
        from: from.into(),
        to: to.into(),
        mode: Some(mode.into()),
        polyline: String::new(),
    };
    let routes = vec![rd("A", "B", "地铁"), rd("B", "C", "公交"), rd("C", "D", "打车")];
    assert_eq!(
        build_paths_param(&routes, &strings(&["1,1", "2,2", "3,3"])).unwrap(),
        "8,0x1D4ED8,0.9,,:1,1;2,2|8,0x4C1D95,0.9,,:3,3"
    );
    let segs: Vec<RouteSeg> = routes.iter().map(|r| seg(&r.from, &r.to, r.mode.as_deref())).collect();
    assert_eq!(estimate_path_groups(&segs), 2);
    let many: Vec<RouteData> = (0..5).map(|i| rd(&format!("x{i}"), "y", "步行")).collect();
    assert_eq!(
        build_paths_param(&many, &strings(&["1", "2", "3", "4", "5"])).unwrap_err(),
        "合并后仍有 5 条路线，超过高德静态地图上限（4）"
    );
}

#[test]
fn means_of_transport_have_colours() {
    let m = |s: &str| Some(s.to_string());
    assert_eq!(mode_color_hex(&m("公交")), "1D4ED8");
    assert_eq!(mode_color_hex(&m("驾车")), "4C1D95");
    assert_eq!(mode_color_hex(&m("自行车")), "164E63");
    assert_eq!(mode_color_hex(&m("飞机")), "0F172A");
    assert_eq!(mode_display(&m("骑行")), Some("步行/骑行"));
    assert_eq!(mode_display(&None), None);
    assert_eq!(hex_to_rgba("1D4ED8"), 0x1D4ED8FF);
    assert_eq!(hex_to_rgba("+ff"), 0x0000FFFF);
    assert_eq!(hex_to_rgba("xyz"), 0x0F172AFF);
    assert_eq!(hex_to_rgba("1FFFFFFFFF"), 0x0F172AFF);
    assert_eq!(hex_to_rgba(""), 0x0F172AFF);
    assert_eq!(clean_label_name("a,b:c|d;e"), "a b c d e");
}

#[test]
fn a_city_map_is_planned() {
    let pois: Vec<PoiNode> = (0..5)
        .map(|i| PoiNode { name: format!("P{i}"), place: format!("{i},0") })
        .collect();
    let way = |from: &str, to: &str, mode: Option<&str>| RouteData {
        from: from.into(),
        to: to.into(),
        mode: mode.map(|s| s.into()),
        polyline: "1,1".into(),
    };
    let routes = vec![
        way("P0", "P1", Some("地铁")),
        way("P1", "外", Some("打车")),
        way("P1", "P2", Some("公交")),
    ];
    let font = Some(square_font());
    let plan = draw_city_map(&pois, &routes, &font);
    assert_eq!(plan.routes.len(), 2);
    assert!(plan.markers.starts_with("mid,0xDC2626,1:0,0|mid,0xDC2626,2:1,0|"));
    assert_eq!(plan.labels, "");
    let texts: Vec<_> = plan.items.iter().map(|i| i.text.as_str()).collect();
    assert_eq!(texts, vec!["图例", "1 P0", "2 P1", "3 P2", "4 P3", "5 P4", "公共交通"]);
    assert_eq!(plan.items[6].mark, Mark::Swatch(0x1D4ED8FF));
    assert_eq!(plan.band, flow_legend_band(&plan.items, font.as_ref().unwrap(), 800));
    // Without a font the sights are marked by name.
    let named = draw_city_map(&pois, &routes, &None);
    assert_eq!(named.markers, "mid,0xDC2626,:0,0;1,0;2,0;3,0;4,0");
    assert!(named.labels.starts_with("P0,0,1,14,0xFFFFFF,0xDC2626:0,0|P1,"));
    assert_eq!(named.band, 0);
}

#[test]
fn orders_for_a_city_map_are_checked() {
    let poi = |n: &str| PoiNode { name: n.into(), place: format!("{n}!") };
    let pois = vec![poi("A"), poi("B")];
    assert!(GenerateCityMap::check(&pois, &vec![seg("A", "B", None)]).is_none());
    assert_eq!(GenerateCityMap::check(&vec![], &vec![]).unwrap(), "城市图生成失败：pois 为空");
    let many: Vec<PoiNode> = (0..11).map(|i| poi(&format!("{i}"))).collect();
    assert_eq!(
        GenerateCityMap::check(&many, &vec![]).unwrap(),
        "城市图生成失败：景点数 11 超过高德静态地图上限（10），请精简"
    );
    assert_eq!(
        GenerateCityMap::check(&pois, &vec![seg("A", "C", None)]).unwrap(),
        "城市图生成失败：routes[0].to「C」不在 pois 中"
    );
    let back_and_forth: Vec<RouteSeg> = (0..5)
        .map(|i| seg("A", "B", Some(if i % 2 == 0 { "打车" } else { "地铁" })))
        .collect();
    assert!(GenerateCityMap::check(&pois, &back_and_forth).unwrap().contains("仍有 5 组"));
    assert_eq!(place_of(&pois, "B").unwrap(), "B!");
    assert_eq!(place_of(&pois, "C").unwrap_err(), "内部错误：「C」不在坐标表中");
    let told = found_way(&seg("A", "B", Some("地铁")), "1,1", &Some("打车".into()));
    assert_eq!(told.mode.as_deref(), Some("打车"));
    assert_eq!(found_way(&seg("A", "B", Some("地铁")), "1,1", &None).mode.as_deref(), Some("地铁"));
    assert_eq!(
        way_failure(&seg("A", "B", None), "断"),
        "城市图生成失败：路线「A→B」路径规划失败：断"
    );
    assert_eq!(map_failure("断"), "城市图生成失败：断");
    assert_eq!(city_name(&value(r#"{"city":"郑州"}"#)), "郑州");
    assert_eq!(city_name(&value("{}")), "未知城市");
}

#[test]
fn pictures_are_asked_for_and_checked() {
    let p = picture_params("k", "1,2", 13, "", "m", "");
    let names: Vec<_> = p.iter().map(|x| x.0.as_str()).collect();
    assert_eq!(names, vec!["size", "location", "zoom", "key", "markers"]);
    assert_eq!(p[2].1, "13");
    assert!(check_picture(&vec![0x89, b'P', b'N', b'G', 1], "").is_ok());
    assert_eq!(
        check_picture(&vec![b'{'], "{").unwrap_err(),
        "高德未返回图片，响应：{"
    );
}

#[test]
fn large_groups_get_maps_of_their_own() {
    let mut tool = GenerateCityMap::new("k".into(), "".into(), "s".into(), &strings(&["city_2.png"]));
    assert_eq!(tool.next_number(), 3);
    let mut run = CityRun::new("s", 3);
    let clusters = vec![vec![0, 1, 2, 3], vec![4], vec![5, 6, 7, 8, 9], vec![10, 11, 12, 13]];
    assert_eq!(run.next(&clusters), Some(0));
    assert_eq!(run.next_path(), "maps/s/city_3_c1.png");
    run.drawn(true);
    assert_eq!(run.next(&clusters), Some(2));
    run.failed(5, "太大");
    assert_eq!(run.next(&clusters), Some(3));
    run.drawn(false);
    assert_eq!(run.next(&clusters), None);
    assert_eq!(
        run.report("郑州", 14, 2),
        "已生成城市详细图「郑州」：maps/s/city_3.png、maps/s/city_3_c1.png（14 个景点、2 条路线）\n簇放大图（5 个景点）未生成：太大"
    );
    // One group alone is the map itself.
    assert_eq!(CityRun::new("s", 3).next(&vec![vec![0, 1, 2, 3, 4]]), None);
    assert_eq!(diameter(&vec![vec![0, 5, 2], vec![5, 0, 7], vec![2, 7, 0]]), 7);
}

#[test]
fn planners_are_chosen() {
    let m = |s: &str| Some(s.to_string());
    assert_eq!(planner(&m("地铁")), Planner::Transit);
    assert_eq!(planner(&m("骑行")), Planner::Walking);
    assert_eq!(planner(&m("打车")), Planner::Driving);
    assert_eq!(planner(&None), Planner::Driving);
    assert!(planner_url(Planner::Transit).ends_with("/transit/integrated"));
    assert_eq!(planner_params(Planner::Transit, "k", "o", "d", "郑州").len(), 6);
    assert_eq!(planner_params(Planner::Walking, "k", "o", "d", "郑州").len(), 5);
}

#[test]
fn journeys_join_their_ends() {
    let reply = |plans: Option<Vec<TransitPlan>>| TransitReply {
        status: "1".into(),
        info: "".into(),
        route: plans,
    };
    let plan = || TransitPlan {
        segments: vec![
            TransitSegment {
                walking: Some(strings(&["1,1;2,2", ""])),
                bus: Some(vec![BusLine {
                    name: Some("地铁1号线".into()),
                    line_type: None,
                    polyline: "3,3;;4,4".into(),
                }]),
                taxi: None,
            },
            TransitSegment { walking: None, bus: None, taxi: Some("5,5".into()) },
        ],
    };
    match after_transit_reply(0, &reply(Some(vec![plan()])), "o", "d") {
        WayStep::Found { line, mode } => {
            assert_eq!(line, "o;1,1;2,2;3,3;4,4;5,5;d");
            assert_eq!(mode.as_deref(), Some("公共交通"));
        }
        _ => panic!(),
    }
    let fail = |r: TransitReply| match after_transit_reply(1, &r, "o", "d") {
        WayStep::Fail(s) => s,
        _ => panic!(),
    };
    assert_eq!(fail(reply(None)), "公交路径响应缺 route");
    assert_eq!(fail(reply(Some(vec![]))), "未找到可用公交/地铁方案");
    assert!(fail(reply(Some(vec![TransitPlan { segments: vec![] }]))).starts_with("两地间无公共交通方案"));
    let busy = TransitReply { status: "0".into(), info: "QPS".into(), route: None };
    assert!(matches!(after_transit_reply(0, &busy, "o", "d"), WayStep::Again { wait_ms: 1200 }));
    assert_eq!(fail(busy), "高德公交路径返回错误: status=0 info=QPS");
}

#[test]
fn journeys_are_classified() {
    let line = |name: Option<&str>, polyline: &str| BusLine {
        name: name.map(|s| s.into()),
        line_type: None,
        polyline: polyline.into(),
    };
    let plan = |bus: Option<Vec<BusLine>>, taxi: Option<&str>| TransitPlan {
        segments: vec![TransitSegment { walking: None, bus, taxi: taxi.map(|s| s.into()) }],
    };
    assert_eq!(classify_transit_plan(&plan(Some(vec![line(Some("2号线"), "1")]), None)), "公共交通");
    assert_eq!(classify_transit_plan(&plan(Some(vec![line(None, "1")]), Some("1"))), "公共交通");
    assert_eq!(classify_transit_plan(&plan(Some(vec![line(Some("2号线"), "")]), Some("1"))), "打车");
    assert_eq!(classify_transit_plan(&plan(Some(vec![line(Some("轮渡"), "1")]), None)), "步行骑行");
    assert_eq!(classify_transit_plan(&plan(None, Some(""))), "步行骑行");
}

#[test]
fn paths_are_read() {
    let reply = |status: &str, info: &str, route: Option<Vec<Vec<String>>>| PathReply {
        status: status.into(),
        info: info.into(),
        route,
    };
    match after_path_reply(0, &reply("1", "", Some(vec![strings(&["1,1;2,2", ";", "3,3"])]))) {
        WayStep::Found { line, mode } => assert_eq!((line.as_str(), mode), ("1,1;2,2;3,3", None)),
        _ => panic!(),
    }
    let fail = |r: PathReply| match after_path_reply(0, &r) {
        WayStep::Fail(s) => s,
        _ => panic!(),
    };
    assert_eq!(fail(reply("1", "", None)), "路径响应缺 route");
    assert_eq!(fail(reply("1", "", Some(vec![]))), "路径响应无 paths");
    assert_eq!(fail(reply("0", "BAD", None)), "高德路径返回错误: status=0 info=BAD");
    assert!(matches!(
        after_path_reply(0, &reply("0", "QPS", None)),
        WayStep::Again { wait_ms: 1200 }
    ));
}

#[test]
fn broken_lines_have_gaps() {
    let shown: Vec<u32> = [0, 13, 14, 21, 22, 36]
        .iter()
        .map(|&i| stroke_color(i, 7, true))
        .collect();
    assert_eq!(shown, vec![7, 7, DASH_GAP, DASH_GAP, 7, DASH_GAP]);
    assert_eq!(stroke_color(14, 7, false), 7);
    let radii: Vec<u8> = [0, 1, 2, 3, 4, 7, 8, 255]
        .iter()
        .map(|&w| stroke_radius(w))
        .collect();
    assert_eq!(radii, vec![1, 1, 1, 2, 2, 4, 4, 128]);
}

#[test]
fn the_first_of_the_farthest_points_bends_a_line() {
    // Points 1 and 3 are equally far off; the line bends at the first, and then at the other.
    let table = |a: usize, b: usize, i: usize| -> u64 {
        match (a, b, i) {
            (0, 4, 1) | (0, 4, 3) => 9,
            (1, 4, 3) => 5,
            _ => 1,
        }
    };
    assert_eq!(dp_simplify(5, 8, table), vec![true, true, false, false, true]);
    assert_eq!(dp_simplify(5, 4, table), vec![true, true, false, true, true]);
    assert_eq!(dp_simplify(5, 9, table), vec![true, false, false, false, true]);
    assert_eq!(dp_simplify(0, 0, table), Vec::<bool>::new());
    assert_eq!(dp_simplify(1, 0, table), vec![true]);
    assert_eq!(dp_simplify(2, 0, table), vec![true, true]);
}

#[test]
fn the_highest_zoom_that_fits_is_taken() {
    assert_eq!(compute_zoom_fit(|z: u8| z <= 11), 11);
    assert_eq!(compute_zoom_fit(|_: u8| true), 17);
    assert_eq!(compute_zoom_fit(|_: u8| false), 1);
    assert_eq!(compute_zoom_fit(|z: u8| z == 3 || z == 9), 9);
    assert_eq!(check_zoom(8), Ok(()));
    assert_eq!(check_zoom(7), Err(TOO_LARGE));
}

#[test]
fn points_are_read_out_of_a_line() {
    let got = parse_polyline("116.1,39.9; 116.2 , 40.0 ;;7;1,2,3");
    let want: Vec<(String, String)> = [("116.1", "39.9"), ("116.2", "40.0"), ("1", "2")]
        .iter()
        .map(|p| (p.0.to_string(), p.1.to_string()))
        .collect();
    assert_eq!(got, want);
    assert!(parse_polyline("").is_empty());
}

#[test]
fn labels_turn_at_the_right_edge() {
    assert!(!label_stands_left(1000, 182, 1200));
    assert!(label_stands_left(1000, 183, 1200));
    assert!(label_stands_left(i32::MAX, u32::MAX, 1200));
    let font = square_font();
    assert_eq!(measure_at(&font, 20, "abc").map(|m| m.0), Some(60));
    assert_eq!(measure_at(&vec![1, 2, 3], 20, "abc"), None);
}
