use litejson::sql::{Comparator, Cond, Matcher, Operator, Search};

#[test]
fn test_operator_tokens() {
    assert_eq!(Operator::Ne.to_string(), "<>");
    assert_eq!(Operator::Eq.to_string(), "=");
    assert_eq!(Operator::Ge.to_string(), ">=");
    assert_eq!(Operator::Gt.to_string(), ">");
    assert_eq!(Operator::Le.to_string(), "<=");
    assert_eq!(Operator::Lt.to_string(), "<");
    assert_eq!(Operator::In.to_string(), "in");
    assert_eq!(Operator::NotIn.to_string(), "not in");
    assert_eq!(Operator::Land.to_string(), "&");
    assert_eq!(Operator::LandNe.to_string(), "&<>");
    assert_eq!(Operator::Like.to_string(), "like");
    assert_eq!(Operator::NotLike.to_string(), "not like");
}

#[test]
fn test_cond_new() {
    // conditions surface through the matcher's rendered clause
    let _cond = Cond::new("id", Operator::Eq, "1");
    let mut m = Matcher::new();
    m.and("id", Operator::Eq, "1");
    let mut s = Search::new();
    s.matcher = m;
    assert_eq!(s.parse("t"), "select * from t where ((id = 1))");
}

#[test]
fn test_matcher_compose() {
    let mut matcher_and = Matcher::new();
    matcher_and.and("username", Operator::Like, "app");

    let mut matcher_or = Matcher::new();
    matcher_or.or("id", Operator::Eq, "1");

    let mut search = Search::new();
    search.matcher.and("id", Operator::In, "1,2,3,4");
    search.matcher.and_matcher(matcher_and);
    search.matcher.or_matcher(matcher_or);
    let sql = search.parse("user");
    assert_eq!(
        sql,
        "select * from user where ((id in (1,2,3,4)) and ((username like \"%app%\"))) and (((id = 1)))"
    );
}

#[test]
fn test_matcher_and_str() {
    let mut search = Search::new();
    search.matcher.and_str("name", Operator::Eq, "cat");
    assert_eq!(search.parse("animals"), "select * from animals where ((name = 'cat'))");
}

#[test]
fn test_matcher_clear_empty() {
    let mut m = Matcher::new();
    assert!(m.is_empty());
    m.and("id", Operator::Gt, "0");
    assert!(!m.is_empty());
    m.clear();
    assert!(m.is_empty());
}

#[test]
fn test_comparator() {
    let mut comp = Comparator::new();
    assert!(comp.is_empty());
    comp.add("id", true);
    comp.add("name", false);
    assert!(!comp.is_empty());
    let mut search = Search::new();
    search.sort = comp;
    assert_eq!(search.parse("t"), "select * from t order by id desc,name asc");
    let mut comp = Comparator::new();
    comp.add("name", false);
    comp.insert(0, "id", true);
    let mut search = Search::new();
    search.sort = comp;
    assert_eq!(search.parse("t"), "select * from t order by id desc,name asc");
    search.sort.clear();
    assert_eq!(search.parse("t"), "select * from t");
}

#[test]
fn test_search_full() {
    let mut search = Search::new();
    assert!(!search.is_seach_total());
    search.matcher.and("id", Operator::Gt, "0");
    search.group = "name".to_string();
    search.sort.add("id", true);
    search.sort.add("name", false);
    search.start = 0;
    search.limit = 10;
    assert!(search.is_seach_total());
    assert_eq!(
        search.parse("animals"),
        "select * from animals where ((id > 0)) group by name order by id desc,name asc limit 0,10"
    );
}
