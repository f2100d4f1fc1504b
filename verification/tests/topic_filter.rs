use mqtt_broker::subscription::{Segment, Subscription, TopicFilter, MAX_TOPIC_FILTER_LEN};
use mqtt_broker::proto::QoS;
use mqtt_broker::ErrorKind;

fn level(text: &str) -> Segment {
    Segment::Level(text.to_string())
}

fn segments(filter: &str) -> Vec<Segment> {
    TopicFilter::parse(filter).unwrap().segments().clone()
}

fn rejected(filter: &str) -> bool {
    match TopicFilter::parse(filter) {
        Ok(_) => false,
        Err(err) => {
            assert_eq!(ErrorKind::InvalidTopicFilter, *err.kind());
            true
        }
    }
}

#[test]
fn parse_cuts_the_filter_at_each_separator() {
    assert_eq!(vec![level("topic"), level("new")], segments("topic/new"));
    assert_eq!(vec![level("a")], segments("a"));
    assert_eq!(vec![level(""), level("")], segments("/"));
    assert_eq!(vec![level(""), level("a")], segments("/a"));
    assert_eq!(vec![level("a"), level("")], segments("a/"));
    assert_eq!(
        vec![level("a"), level(""), level("b")],
        segments("a//b")
    );
    assert_eq!(
        vec![level("$SYS"), level("broker"), level("load")],
        segments("$SYS/broker/load")
    );
    assert_eq!(
        vec![level("caf\u{e9}"), level("\u{65e5}\u{672c}")],
        segments("caf\u{e9}/\u{65e5}\u{672c}")
    );
}

#[test]
fn parse_takes_wildcards_that_stand_alone() {
    assert_eq!(vec![Segment::SingleLevelWildcard], segments("+"));
    assert_eq!(vec![Segment::MultiLevelWildcard], segments("#"));
    assert_eq!(
        vec![level("sport"), Segment::SingleLevelWildcard, level("score")],
        segments("sport/+/score")
    );
    assert_eq!(
        vec![Segment::SingleLevelWildcard, Segment::SingleLevelWildcard],
        segments("+/+")
    );
    assert_eq!(
        vec![level("sport"), Segment::MultiLevelWildcard],
        segments("sport/#")
    );
    assert_eq!(
        vec![
            level(""),
            Segment::SingleLevelWildcard,
            Segment::MultiLevelWildcard
        ],
        segments("/+/#")
    );
}

#[test]
fn parse_rejects_malformed_filters() {
    assert!(rejected(""));
    assert!(rejected("a+"));
    assert!(rejected("+a"));
    assert!(rejected("a/b+/c"));
    assert!(rejected("a#"));
    assert!(rejected("#a"));
    assert!(rejected("sport/tennis#"));
    assert!(rejected("++"));
    assert!(rejected("##"));
    assert!(rejected("+#"));
    assert!(rejected("#/a"));
    assert!(rejected("a/#/b"));
    assert!(rejected("#/"));
    assert!(rejected("#/#"));
    assert!(rejected("a/\0/b"));
    assert!(rejected("\0"));
    assert!(rejected("a/b+"));
}

#[test]
fn parse_counts_the_bytes_of_the_filter() {
    let longest = "a".repeat(MAX_TOPIC_FILTER_LEN);
    assert_eq!(65535, MAX_TOPIC_FILTER_LEN);
    assert_eq!(vec![level(&longest)], segments(&longest));

    let too_long = "a".repeat(MAX_TOPIC_FILTER_LEN + 1);
    assert!(rejected(&too_long));

    // 21845 characters of three bytes each are 65535 bytes.
    let wide = "\u{20ac}".repeat(21845);
    assert_eq!(65535, wide.len());
    assert_eq!(1, segments(&wide).len());
    let too_wide = format!("{}/", wide);
    assert!(rejected(&too_wide));
}

#[test]
fn subscription_holds_filter_and_quality_of_service() {
    let filter = TopicFilter::parse("a/+/#").unwrap();
    let subscription = Subscription::new(filter.clone(), QoS::AtLeastOnce);
    assert_eq!(filter, *subscription.filter());
    assert_eq!(QoS::AtLeastOnce, *subscription.max_qos());
    assert_eq!(
        &vec![
            level("a"),
            Segment::SingleLevelWildcard,
            Segment::MultiLevelWildcard
        ],
        subscription.filter().segments()
    );
}
