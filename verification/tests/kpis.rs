use dashboard_backend::kpi::get_dashboard_kpis;

#[test]
fn kpis_fixed_titles_in_order() {
    let v = get_dashboard_kpis();
    assert_eq!(v.len(), 4);
    let titles: Vec<&str> = v.iter().map(|k| k.title.as_str()).collect();
    assert_eq!(
        titles,
        vec!["New Users", "Monthly Revenue", "Completed Tasks", "Critical Alerts"]
    );
}

#[test]
fn kpis_fixed_values_in_order() {
    let v = get_dashboard_kpis();
    let values: Vec<&str> = v.iter().map(|k| k.value.as_str()).collect();
    assert_eq!(values, vec!["1,250", "R$ 45.8k", "87%", "3"]);
}

#[test]
fn kpis_icons_and_colors() {
    let v = get_dashboard_kpis();
    let icons: Vec<&str> = v.iter().map(|k| k.icon.as_str()).collect();
    assert_eq!(icons, vec!["Users", "BarChart", "CheckCircle", "AlertCircle"]);
    let colors: Vec<&str> = v.iter().map(|k| k.color.as_str()).collect();
    assert_eq!(colors, vec!["indigo", "emerald", "blue", "red"]);
}

#[test]
fn kpis_idempotent() {
    let a = get_dashboard_kpis();
    let b = get_dashboard_kpis();
    assert_eq!(a, b);
}
