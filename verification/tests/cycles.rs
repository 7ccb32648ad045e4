use decruft::age_filter::AgeFilter;
use decruft::cycle::Cycle;
use decruft::size_filter::SizeFilter;
use decruft::sort_order::SortOrder;
use decruft::type_filter::TypeFilter;

#[test]
fn age_filter_cycles_through_all_values() {
    let all = AgeFilter::all_values();
    assert_eq!(
        all,
        vec![AgeFilter::NoLimit, AgeFilter::Days90, AgeFilter::Days180, AgeFilter::Days365]
    );
    assert_eq!(AgeFilter::NoLimit.next(), AgeFilter::Days90);
    assert_eq!(AgeFilter::Days90.next(), AgeFilter::Days180);
    assert_eq!(AgeFilter::Days180.next(), AgeFilter::Days365);
    assert_eq!(AgeFilter::Days365.next(), AgeFilter::NoLimit);
}

#[test]
fn age_filter_days_and_labels() {
    assert_eq!(AgeFilter::NoLimit.as_days(), None);
    assert_eq!(AgeFilter::Days90.as_days(), Some(90));
    assert_eq!(AgeFilter::Days180.as_days(), Some(180));
    assert_eq!(AgeFilter::Days365.as_days(), Some(365));
    assert_eq!(AgeFilter::NoLimit.as_str(), "all");
    assert_eq!(AgeFilter::Days90.as_str(), "90 days");
}

#[test]
fn size_filter_cycles_and_thresholds() {
    let all = SizeFilter::all_values();
    assert_eq!(all, vec![SizeFilter::ShowAll, SizeFilter::SkipSmall]);
    assert_eq!(SizeFilter::ShowAll.next(), SizeFilter::SkipSmall);
    assert_eq!(SizeFilter::SkipSmall.next(), SizeFilter::ShowAll);
    assert_eq!(SizeFilter::ShowAll.as_bytes(), 0);
    assert_eq!(SizeFilter::SkipSmall.as_bytes(), 1_048_576);
    assert_eq!(SizeFilter::SkipSmall.as_str(), "skip small");
}

#[test]
fn sort_order_cycles_and_labels() {
    let all = SortOrder::all_values();
    assert_eq!(
        all,
        vec![SortOrder::SizeDescending, SortOrder::AgeDescending, SortOrder::Alphabetical]
    );
    assert_eq!(SortOrder::SizeDescending.next(), SortOrder::AgeDescending);
    assert_eq!(SortOrder::AgeDescending.next(), SortOrder::Alphabetical);
    assert_eq!(SortOrder::Alphabetical.next(), SortOrder::SizeDescending);
    assert_eq!(SortOrder::SizeDescending.as_str(), "size");
    assert_eq!(SortOrder::AgeDescending.as_str(), "age");
    assert_eq!(SortOrder::Alphabetical.as_str(), "name");
}

#[test]
fn type_filter_cycles_and_labels() {
    let all = TypeFilter::all_values();
    assert_eq!(all, vec![TypeFilter::CommonOnly, TypeFilter::AllTypes]);
    assert_eq!(TypeFilter::CommonOnly.next(), TypeFilter::AllTypes);
    assert_eq!(TypeFilter::AllTypes.next(), TypeFilter::CommonOnly);
    assert!(!TypeFilter::CommonOnly.includes_all());
    assert!(TypeFilter::AllTypes.includes_all());
    assert_eq!(TypeFilter::CommonOnly.as_str(), "common types");
}

#[test]
fn full_cycle_returns_to_start() {
    let mut v = AgeFilter::NoLimit;
    for _ in 0..AgeFilter::all_values().len() {
        v = v.next();
    }
    assert_eq!(v, AgeFilter::NoLimit);
}
