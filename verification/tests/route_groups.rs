use bypass_hub::grouping::{group_rows, GroupedRoutes, GroupedRow};
use bypass_hub::models::Route;

fn row(id: Option<i64>, value: &str, t: &str, gid: Option<i64>, gname: Option<&str>) -> GroupedRow {
    GroupedRow {
        id,
        value: value.to_string(),
        route_type: t.to_string(),
        group_id: gid,
        group_name: gname.map(|s| s.to_string()),
    }
}

fn route(id: i64, value: &str, t: &str) -> Route {
    Route { id, value: value.to_string(), route_type: t.to_string() }
}

#[test]
fn rows_group_in_order_of_first_appearance() {
    let rows = vec![
        row(Some(1), "a.com", "domain", Some(7), Some("video")),
        row(Some(2), "1.1.1.1", "ip", None, None),
        row(Some(3), "b.com", "domain", Some(7), Some("video")),
        row(Some(4), "c.com", "domain", Some(9), Some("social")),
        row(None, "d.com", "domain", None, None),
    ];
    let groups = group_rows(&rows);
    assert_eq!(
        groups,
        vec![
            GroupedRoutes {
                group_id: Some(7),
                group_name: Some("video".to_string()),
                routes: vec![route(1, "a.com", "domain"), route(3, "b.com", "domain")],
            },
            GroupedRoutes {
                group_id: None,
                group_name: None,
                routes: vec![route(2, "1.1.1.1", "ip"), route(0, "d.com", "domain")],
            },
            GroupedRoutes {
                group_id: Some(9),
                group_name: Some("social".to_string()),
                routes: vec![route(4, "c.com", "domain")],
            },
        ]
    );
}

#[test]
fn group_takes_name_of_first_row() {
    let rows = vec![
        row(Some(1), "a", "ip", Some(1), Some("first")),
        row(Some(2), "b", "ip", Some(1), Some("second")),
    ];
    let groups = group_rows(&rows);
    assert_eq!(groups.len(), 1);
    assert_eq!(groups[0].group_name.as_deref(), Some("first"));
    assert_eq!(groups[0].routes.len(), 2);
}

#[test]
fn no_rows_no_groups() {
    assert!(group_rows(&[]).is_empty());
}

#[test]
fn route_in_two_groups_appears_in_both() {
    let rows = vec![
        row(Some(1), "a", "ip", Some(1), Some("x")),
        row(Some(1), "a", "ip", Some(2), Some("y")),
    ];
    let groups = group_rows(&rows);
    assert_eq!(groups.len(), 2);
    assert_eq!(groups[0].routes, vec![route(1, "a", "ip")]);
    assert_eq!(groups[1].routes, vec![route(1, "a", "ip")]);
    let total: usize = groups.iter().map(|g| g.routes.len()).sum();
    assert_eq!(total, rows.len());
}
