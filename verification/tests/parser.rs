use toroidal_tql::ast::{AggregationFunction, BackendHint, Direction, PropertyValue, WhereCondition};
use toroidal_tql::parser::{
    parse_direction, parse_label, parse_match_clause, parse_node_pattern, parse_number, parse_query,
    parse_return_clause,
};

fn threshold_of(c: &WhereCondition) -> (String, String) {
    match c {
        WhereCondition::ToroidalDistance { field, threshold } => (field.clone(), threshold.clone()),
        _ => panic!("Expected ToroidalDistance condition"),
    }
}

#[test]
fn test_parse_simple_query() {
    let query = "MATCH (node:Label) WHERE TOROIDALDISTANCE(node.vector, 0.3) RETURN node.id LIMIT 10";
    let result = parse_query(query);
    assert!(result.is_ok());

    let (remaining, parsed_query) = result.unwrap();
    assert_eq!(remaining, "");
    assert!(parsed_query.match_clause.is_some());
    assert_eq!(parsed_query.limit, 10);
    if let Some(ref match_clause) = parsed_query.match_clause {
        assert_eq!(match_clause.source.label, "Label");
    }
}

#[test]
fn test_parse_different_threshold() {
    let query = "MATCH (doc:Document) WHERE TOROIDALDISTANCE(doc.embedding, 0.7) RETURN doc.id LIMIT 5";
    let result = parse_query(query);
    assert!(result.is_ok());

    let (remaining, parsed_query) = result.unwrap();
    assert_eq!(remaining, "");
    assert!(parsed_query.match_clause.is_some());
    assert_eq!(parsed_query.limit, 5);
    if let Some(ref match_clause) = parsed_query.match_clause {
        assert_eq!(match_clause.source.label, "Document");
    }
}

#[test]
fn test_parse_high_limit() {
    let query = "MATCH (user:User) WHERE TOROIDALDISTANCE(user.vec, 0.1) RETURN user.name, user.id LIMIT 100";
    let result = parse_query(query);
    assert!(result.is_ok());

    let (remaining, parsed_query) = result.unwrap();
    assert_eq!(remaining, "");
    assert!(parsed_query.match_clause.is_some());
    assert_eq!(parsed_query.limit, 100);
    if let Some(ref match_clause) = parsed_query.match_clause {
        assert_eq!(match_clause.source.label, "User");
    }
}

#[test]
fn test_parse_connectedto_query() {
    let query = r#"MATCH (doc:Document) CONNECTEDTO(doc, "TAGGED_WITH", "quantum") WITHIN 2 HOPS RETURN doc.id LIMIT 20"#;
    let result = parse_query(query);
    assert!(result.is_ok());

    let (_, parsed_query) = result.unwrap();
    assert!(parsed_query.connected_clause.is_some());
    assert!(parsed_query.within_clause.is_some());

    if let Some(ref connected) = parsed_query.connected_clause {
        assert_eq!(connected.target_label, "doc");
        assert_eq!(connected.relationship_type, "quantum");
    }

    if let Some(ref within) = parsed_query.within_clause {
        assert_eq!(within.min_hops, 2);
        assert_eq!(within.max_hops, 2);
    }
}

#[test]
fn test_parse_within_range_query() {
    let query = r#"MATCH (doc:Document) CONNECTEDTO(doc, "TAGGED_WITH", "quantum") WITHIN 2 TO 5 HOPS RETURN doc.id LIMIT 20"#;
    let result = parse_query(query);
    assert!(result.is_ok());

    let (_, parsed_query) = result.unwrap();
    assert!(parsed_query.connected_clause.is_some());
    assert!(parsed_query.within_clause.is_some());

    if let Some(ref within) = parsed_query.within_clause {
        assert_eq!(within.min_hops, 2);
        assert_eq!(within.max_hops, 5);
    }
}

#[test]
fn test_node_pattern_parsing() {
    let input = "(node:Label)";
    let result = parse_node_pattern(input);
    assert!(result.is_ok());

    let (_, node_pattern) = result.unwrap();
    assert_eq!(node_pattern.alias, "node");
    assert_eq!(node_pattern.label, "Label");
    assert!(node_pattern.properties.is_none());
}

#[test]
fn test_number_parsing() {
    let result = parse_number("0.3");
    assert!(result.is_ok());
    let literal = result.unwrap().1;
    assert_eq!(literal, "0.3");
    assert_eq!(literal.parse::<f32>().unwrap(), 0.3);

    let result = parse_number("-0.75");
    assert!(result.is_ok());
    let literal = result.unwrap().1;
    assert_eq!(literal, "-0.75");
    assert_eq!(literal.parse::<f32>().unwrap(), -0.75);
}

#[test]
fn test_match_clause_parsing() {
    let input = "MATCH (node:Label)";
    let result = parse_match_clause(input);
    assert!(result.is_ok());
}

#[test]
fn test_basic_match_parsing() {
    let query = "MATCH (node:Label) RETURN node.id LIMIT 10";
    let result = parse_query(query);
    assert!(result.is_ok());

    let (_, parsed_query) = result.unwrap();
    assert!(parsed_query.match_clause.is_some());
    assert_eq!(parsed_query.limit, 10);
    if let Some(ref match_clause) = parsed_query.match_clause {
        assert_eq!(match_clause.source.label, "Label");
        assert_eq!(match_clause.source.alias, "node");
    }
}

#[test]
fn test_match_where_return_limit_parsing() {
    let query = "MATCH (doc:Document) WHERE TOROIDALDISTANCE(doc.vector, 0.3) RETURN doc.id LIMIT 5";
    let result = parse_query(query);
    assert!(result.is_ok());

    let (_, parsed_query) = result.unwrap();
    assert!(parsed_query.match_clause.is_some());
    assert!(parsed_query.where_clause.is_some());
    assert_eq!(parsed_query.limit, 5);

    if let Some(ref match_clause) = parsed_query.match_clause {
        assert_eq!(match_clause.source.label, "Document");
    }

    if let Some(ref where_clause) = parsed_query.where_clause {
        let (field, threshold) = threshold_of(where_clause);
        assert_eq!(field, "doc.vector");
        assert_eq!(threshold.parse::<f32>().unwrap(), 0.3);
    }
}

#[test]
fn test_multiple_return_fields() {
    let query = "MATCH (user:User) WHERE TOROIDALDISTANCE(user.profile, 0.4) RETURN user.id, user.name, user.email LIMIT 20";
    let result = parse_query(query);
    assert!(result.is_ok());

    let (_, parsed_query) = result.unwrap();
    assert!(parsed_query.match_clause.is_some());
    assert!(parsed_query.where_clause.is_some());
    assert_eq!(parsed_query.return_fields.len(), 3);
    assert_eq!(parsed_query.limit, 20);

    assert!(parsed_query.return_fields.contains(&"user.id".to_string()));
    assert!(parsed_query.return_fields.contains(&"user.name".to_string()));
    assert!(parsed_query.return_fields.contains(&"user.email".to_string()));
}

#[test]
fn test_different_thresholds() {
    let query = "MATCH (item:Item) WHERE TOROIDALDISTANCE(item.embedding, 0.15) RETURN item.id LIMIT 100";
    let result = parse_query(query);
    assert!(result.is_ok());

    let (_, parsed_query) = result.unwrap();
    assert!(parsed_query.where_clause.is_some());
    assert_eq!(parsed_query.limit, 100);

    if let Some(ref where_clause) = parsed_query.where_clause {
        let (field, threshold) = threshold_of(where_clause);
        assert_eq!(field, "item.embedding");
        assert_eq!(threshold.parse::<f32>().unwrap(), 0.15);
    }
}

#[test]
fn test_various_labels() {
    let queries = vec![
        "MATCH (n:Node) RETURN n.id LIMIT 1",
        "MATCH (doc:Document) RETURN doc.id LIMIT 10",
        "MATCH (usr:User) WHERE TOROIDALDISTANCE(usr.vector, 0.5) RETURN usr.id LIMIT 5",
        "MATCH (prod:Product) WHERE TOROIDALDISTANCE(prod.features, 0.2) RETURN prod.id, prod.name LIMIT 25",
        "MATCH (post:Post) WHERE TOROIDALDISTANCE(post.content, 0.35) RETURN post.id, post.title, post.author LIMIT 15",
    ];

    for (i, query) in queries.iter().enumerate() {
        let result = parse_query(query);
        assert!(result.is_ok(), "Query {} failed: {}", i + 1, query);

        let (_, parsed_query) = result.unwrap();
        assert!(parsed_query.match_clause.is_some(), "Query {} - match clause missing", i + 1);
        assert!(parsed_query.return_fields.len() >= 1, "Query {} - return fields missing", i + 1);
        assert!(parsed_query.limit > 0, "Query {} - limit should be positive", i + 1);
    }
}

#[test]
fn test_basic_tql_parsing() {
    let query_text = "MATCH (doc:Document) WHERE TOROIDALDISTANCE(doc.vector, 0.3) RETURN doc.id LIMIT 10";
    let result = parse_query(query_text);
    assert!(result.is_ok());

    let (_, parsed_query) = result.unwrap();
    assert!(parsed_query.match_clause.is_some());
    assert_eq!(parsed_query.limit, 10);
    if let Some(ref match_clause) = parsed_query.match_clause {
        assert_eq!(match_clause.source.label, "Document");
    }
}

#[test]
fn test_connectedto_parsing() {
    let query_text = r#"MATCH (doc:Document) CONNECTEDTO(doc, "TAGGED_WITH", "quantum") WITHIN 2 HOPS RETURN doc.id LIMIT 20"#;
    let result = parse_query(query_text);
    assert!(result.is_ok());

    let (_, parsed_query) = result.unwrap();
    assert!(parsed_query.connected_clause.is_some());
    assert!(parsed_query.within_clause.is_some());
    if let Some(ref connected) = parsed_query.connected_clause {
        assert_eq!(connected.target_label, "doc");
        assert_eq!(connected.relationship_type, "quantum");
    }
    if let Some(ref within) = parsed_query.within_clause {
        assert_eq!(within.min_hops, 2);
        assert_eq!(within.max_hops, 2);
    }
}

#[test]
fn test_aggregation_parsing() {
    let query_text = r#"MATCH (user:User)-[:LIKES]->(content:Content) RETURN user.id, COUNT(content) as likes ORDER BY likes DESC LIMIT 10"#;
    let result = parse_query(query_text);
    assert!(result.is_ok());

    let (_, parsed_query) = result.unwrap();
    assert!(!parsed_query.aggregation_fields.is_empty());
    assert!(parsed_query.order_by.is_some());

    let count_agg = parsed_query
        .aggregation_fields
        .iter()
        .find(|field| matches!(field.function, AggregationFunction::Count));
    assert!(count_agg.is_some());
}

#[test]
fn test_distributed_flag_parsing() {
    let query_text = r#"DISTRIBUTED MATCH (node:Label) WHERE TOROIDALDISTANCE(node.vector, 0.4) RETURN node.id, node.score LIMIT 5"#;
    let result = parse_query(query_text);
    assert!(result.is_ok());

    let (_, parsed_query) = result.unwrap();
    assert!(parsed_query.distributed);
}

#[test]
fn query_parts_are_read_exactly() {
    let q = "  match (a:Doc)-[:CITES]->(b:Doc) where toroidalDistance( a.vec , -1.25) RETURN a.id, SUM(b.score) AS total, b.id ORDER BY total ASC LIMIT 7 rest";
    let (rest, parsed) = parse_query(q).unwrap();
    assert_eq!(rest, " rest");
    let m = parsed.match_clause.unwrap();
    assert_eq!(m.source.alias, "a");
    let rel = m.relationship.unwrap();
    assert_eq!(rel.type_, "CITES");
    assert_eq!(rel.direction, Direction::Outgoing);
    assert_eq!(m.target.unwrap().label, "Doc");
    let (field, threshold) = threshold_of(&parsed.where_clause.unwrap());
    assert_eq!(field, "a.vec");
    assert_eq!(threshold, "-1.25");
    assert_eq!(parsed.return_fields, vec!["a.id".to_string(), "b.id".to_string()]);
    assert_eq!(parsed.aggregation_fields.len(), 1);
    assert_eq!(parsed.aggregation_fields[0].function, AggregationFunction::Sum("b.score".to_string()));
    assert_eq!(parsed.aggregation_fields[0].alias, Some("total".to_string()));
    let order = parsed.order_by.unwrap();
    assert_eq!(order.field, "total");
    assert!(order.ascending);
    assert_eq!(parsed.limit, 7);
    assert!(!parsed.distributed);
    assert!(parsed.hints.is_none());
}

#[test]
fn hints_are_read() {
    let q = "HINTS USING AVX2 SCATTER 4 SHARDS PREFER LOCAL_SHARD PREFETCH GRAPH_HOPS 3 MATCH (n:Node) RETURN n.id LIMIT 1";
    let (_, parsed) = parse_query(q).unwrap();
    let h = parsed.hints.unwrap();
    assert_eq!(h.backend, Some(BackendHint::Avx2));
    assert_eq!(h.scatter_shards, Some(4));
    assert!(h.prefer_local_shard);
    assert_eq!(h.prefetch_hops, Some(3));
    assert!(!h.force_gpu);
}

#[test]
fn connected_with_property_filter() {
    let q = r#"MATCH (d:Doc) CONNECTEDTO(tag, "TAGGED", name, "x") RETURN d.id LIMIT 3"#;
    let (_, parsed) = parse_query(q).unwrap();
    let c = parsed.connected_clause.unwrap();
    assert_eq!(c.target_label, "tag");
    assert_eq!(c.relationship_type, "TAGGED");
    assert_eq!(c.property_filter, Some(("name".to_string(), PropertyValue::String("x".to_string()))));
}

#[test]
fn limit_overflow_reads_as_ten() {
    let (_, parsed) = parse_query("MATCH (n:Node) RETURN n.id LIMIT 99999999999").unwrap();
    assert_eq!(parsed.limit, 10);
}

#[test]
fn missing_limit_is_refused() {
    assert!(parse_query("MATCH (n:Node) RETURN n.id").is_err());
    assert!(parse_query("RETURN n.id LIMIT 1").is_err());
    assert!(parse_query("MATCH (n:Node) WHERE n.x RETURN n.id LIMIT 1").is_err());
}

#[test]
fn node_pattern_keeps_first_property() {
    let (rest, n) = parse_node_pattern(r#"(p:Person{name:"Ann",age:3})"#).unwrap();
    assert_eq!(rest, "");
    assert_eq!(n.properties, Some(vec![("name".to_string(), PropertyValue::String("Ann".to_string()))]));
    let (_, n) = parse_node_pattern("(f:Flag{on:TRUE})").unwrap();
    assert_eq!(n.properties, Some(vec![("on".to_string(), PropertyValue::Boolean(true))]));
}

#[test]
fn direction_arrows() {
    assert_eq!(parse_direction("-[:R]->x").unwrap(), ("x", Direction::Outgoing));
    assert_eq!(parse_direction("<-[:R]-").unwrap().1, Direction::Incoming);
    assert_eq!(parse_direction("<-[:R]->").unwrap().1, Direction::Outgoing);
    assert!(parse_direction("-[:R]-").is_err());
}

#[test]
fn plain_return_and_label() {
    let (rest, c) = parse_return_clause("RETURN a, b.c ,d LIMIT").unwrap();
    assert_eq!(c.fields, vec!["a".to_string(), "b.c".to_string(), "d".to_string()]);
    assert_eq!(rest, " LIMIT");
    assert_eq!(parse_label(" :Person)").unwrap(), (")", "Person".to_string()));
    assert!(parse_label("Person").is_err());
}

#[test]
fn number_without_fraction_digits_stops_at_point() {
    assert_eq!(parse_number("12.x").unwrap(), (".x", "12".to_string()));
    assert!(parse_number("-x").is_err());
}
