use eso_addons::basic::{BasicSort, BasicView, BasicWindow};
use eso_addons::service::SearchDbAddon;

fn a(id: i32, name: &str) -> SearchDbAddon {
    SearchDbAddon { id, category_id: "c".into(), version: "1".into(), name: name.into(), installed: true }
}

fn ids(w: &BasicWindow) -> Vec<i32> {
    w.installed_addons.iter().map(|x| x.id).collect()
}

#[test]
fn basic_window_orders_and_logs() {
    let mut w = BasicWindow::new();
    assert!(w.view == BasicView::Installed);
    assert!(w.show_init());
    assert!(!w.show_init());
    w.set_installed(vec![a(3, "beta"), a(1, "Alpha"), a(2, "alpha"), a(4, "Gamma")]);
    assert_eq!(ids(&w), vec![1, 2, 3, 4]);
    w.sort = BasicSort::Id;
    w.handle_sort();
    assert_eq!(ids(&w), vec![1, 2, 3, 4]);
    w.set_installed(vec![a(9, "z"), a(5, "y")]);
    assert_eq!(ids(&w), vec![5, 9]);
    w.sort = BasicSort::Favorites;
    w.handle_sort();
    assert_eq!(ids(&w), vec![5, 9]);
    assert_eq!(w.installed_label(), "Installed: 2");
    w.record_update(&vec![]);
    w.record_update(&vec!["Foo".to_string(), "Bar".to_string()]);
    assert_eq!(w.addons_updated, vec!["Everything up to date!", "Foo updated!", "Bar updated!"]);
    w.filter = "MiXed".into();
    w.normalize_filter();
    assert_eq!(w.filter, "mixed");
    assert_eq!(BasicSort::TotalDownloads.to_string(), "Total Downloads");
    assert_eq!(BasicSort::Updated.to_string(), "Updated");
}
