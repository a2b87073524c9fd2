use ledgerbot::word_selection::{FilterPageStorage, FilterSelectionStorage};

fn s(x: &str) -> String {
    x.to_string()
}

#[test]
fn selections_are_kept_by_category() {
    let mut st = FilterSelectionStorage::new();
    assert!(st.get_filter_selection("Food").is_empty());
    st.set_filter_selection(s("Food"), vec![s("coffee"), s("tea")]);
    st.set_filter_selection(s("Fun"), vec![s("movie")]);
    assert_eq!(st.get_filter_selection("Food"), vec![s("coffee"), s("tea")]);
    st.set_filter_selection(s("Food"), vec![]);
    assert!(st.get_filter_selection("Food").is_empty());
    assert_eq!(st.get_filter_selection("Fun"), vec![s("movie")]);
    st.clear_filter_selection("Fun");
    assert!(st.get_filter_selection("Fun").is_empty());
}

#[test]
fn page_offsets_default_to_the_first_page() {
    let mut st = FilterPageStorage::new();
    assert_eq!(st.get_filter_page_offset("Food"), 0);
    st.set_filter_page_offset(s("Food"), 40);
    assert_eq!(st.get_filter_page_offset("Food"), 40);
    assert_eq!(st.get_filter_page_offset("Fun"), 0);
    st.set_filter_page_offset(s("Food"), 0);
    assert_eq!(st.get_filter_page_offset("Food"), 0);
    st.set_filter_page_offset(s("Fun"), 20);
    st.clear_filter_page_offset("Fun");
    assert_eq!(st.get_filter_page_offset("Fun"), 0);
}
