use mybatis_mapper::{generate_sql, DynamicSqlNode, Mapper, MyBatisXmlParser, Params, Value};

fn s(x: &str) -> String {
    x.to_string()
}

fn parse(body: &str) -> Mapper {
    let doc = format!("<mapper namespace=\"t\">{}</mapper>", body);
    MyBatisXmlParser::new(&doc).parse_mapper().unwrap()
}

fn run(mapper: &Mapper, id: &str, params: &Params) -> String {
    let stmt = mapper.statement(id).unwrap();
    generate_sql(stmt.dynamic_sql.as_ref().unwrap(), params, mapper)
}

#[test]
fn if_guarded_where() {
    let m = parse(
        r#"<select id="findUserById">SELECT * FROM users WHERE 1=1 <if test="id != null"> AND id = #{id}</if> <if test="name != null and name != ''"> AND name = #{name}</if></select>"#,
    );
    let p = Params::Object(vec![(s("id"), Value::Int(1)), (s("name"), Value::Str(s("张三")))]);
    let sql = run(&m, "findUserById", &p);
    assert!(sql.contains("SELECT * FROM users WHERE 1=1 AND id = 1 AND name = '张三'"), "{}", sql);
}

#[test]
fn if_guarded_where_without_params() {
    let m = parse(
        r#"<select id="findUserById">SELECT * FROM users WHERE 1=1 <if test="id != null"> AND id = #{id}</if></select>"#,
    );
    let sql = run(&m, "findUserById", &Params::Object(vec![]));
    assert_eq!(sql, "SELECT * FROM users WHERE 1=1");
}

#[test]
fn foreach_in_list() {
    let m = parse(
        r#"<select id="q">SELECT * FROM tab1 where column155555 in <foreach collection="list" item="item" open="(" separator="," close=")">#{item}</foreach></select>"#,
    );
    let p = Params::Object(vec![(
        s("list"),
        Value::Array(vec![Value::Int(1), Value::Int(2), Value::Int(3)]),
    )]);
    let sql = run(&m, "q", &p);
    assert!(sql.contains("in (1 , 2 , 3)"), "{}", sql);
}

#[test]
fn foreach_in_list_from_collections() {
    let m = parse(
        r#"<select id="q">SELECT * FROM tab1 where c in <foreach collection="list" item="item" open="(" separator="," close=")">#{item}</foreach></select>"#,
    );
    let p = Params::Collections(vec![(s("list"), vec![Value::Int(1), Value::Int(2), Value::Int(3)])]);
    assert_eq!(run(&m, "q", &p), "SELECT * FROM tab1 where c in (1 , 2 , 3)");
}

#[test]
fn include_expansion() {
    let m = parse(
        r#"<sql id="sql1">select a,b,c,d,e,f,g</sql><select id="select0"><include refid="sql1"/> from tab1</select>"#,
    );
    let sql = run(&m, "select0", &Params::Object(vec![]));
    assert!(sql.contains("select a,b,c,d,e,f,g from tab1"), "{}", sql);
}

#[test]
fn include_with_end_tag() {
    let m = parse(
        r#"<sql id="sql1">select a</sql><select id="select0"><include refid="sql1"></include> from tab1</select>"#,
    );
    assert_eq!(run(&m, "select0", &Params::Object(vec![])), "select a from tab1");
}

#[test]
fn include_of_unknown_fragment_is_empty() {
    let m = parse(r#"<select id="s"><include refid="nope"/> from tab1</select>"#);
    assert_eq!(run(&m, "s", &Params::Object(vec![])), "from tab1");
}

#[test]
fn batch_insert() {
    let m = parse(
        r#"<insert id="batchInsert">INSERT INTO book_attach_ocr_result(book_attach_ocr_task_id, book_attach_id) VALUES <foreach collection="list" item="entity" separator=",">(#{entity.bookAttachOcrTaskId}, #{entity.bookAttachId})</foreach></insert>"#,
    );
    let row = |a: i64, b: i64| {
        Value::Object(vec![
            (s("bookAttachOcrTaskId"), Value::Int(a)),
            (s("bookAttachId"), Value::Int(b)),
        ])
    };
    let p = Params::Object(vec![(s("list"), Value::Array(vec![row(1, 2), row(3, 4)]))]);
    let sql = run(&m, "batchInsert", &p);
    assert!(sql.contains("VALUES (1, 2) , (3, 4)"), "{}", sql);
}

#[test]
fn choose_when_otherwise() {
    let m = parse(
        r#"<select id="c"><choose><when test="x != null">A = #{x}</when><otherwise>A = 0</otherwise></choose></select>"#,
    );
    assert_eq!(run(&m, "c", &Params::Object(vec![])), "A = 0");
    assert_eq!(run(&m, "c", &Params::Object(vec![(s("x"), Value::Int(7))])), "A = 7");
}

#[test]
fn set_strips_trailing_comma() {
    let m = parse(r#"<update id="u">UPDATE t <set>a = #{a}, b = #{b},</set></update>"#);
    let p = Params::Object(vec![(s("a"), Value::Int(1)), (s("b"), Value::Int(2))]);
    let sql = run(&m, "u", &p);
    assert!(sql.contains("UPDATE t SET a = 1, b = 2"), "{}", sql);
    assert!(!sql.ends_with(','));
}

#[test]
fn where_strips_leading_and() {
    let m = parse(
        r#"<select id="w">SELECT * FROM t <where><if test="a != null">AND a = #{a}</if><if test="b != null">AND b = #{b}</if></where></select>"#,
    );
    let p = Params::Object(vec![(s("b"), Value::Int(5))]);
    assert_eq!(run(&m, "w", &p), "SELECT * FROM t WHERE b = 5");
    let p = Params::Object(vec![(s("a"), Value::Int(1)), (s("b"), Value::Int(5))]);
    assert_eq!(run(&m, "w", &p), "SELECT * FROM t WHERE a = 1 AND b = 5");
}

#[test]
fn where_strips_leading_or() {
    let m = parse(r#"<select id="w">SELECT * FROM t <where>OR b = 1</where></select>"#);
    assert_eq!(run(&m, "w", &Params::Object(vec![])), "SELECT * FROM t WHERE b = 1");
}

#[test]
fn where_with_empty_body_emits_nothing() {
    let m = parse(
        r#"<select id="w">SELECT * FROM t <where><if test="a != null">AND a = #{a}</if></where></select>"#,
    );
    let sql = run(&m, "w", &Params::Object(vec![]));
    assert_eq!(sql, "SELECT * FROM t");
    assert!(!sql.contains("WHERE"));
}

#[test]
fn foreach_over_empty_collection_emits_nothing() {
    let m = parse(
        r#"<select id="q">SELECT 1 <foreach collection="list" item="i" open="(" separator="," close=")">#{i}</foreach></select>"#,
    );
    let p = Params::Object(vec![(s("list"), Value::Array(vec![]))]);
    assert_eq!(run(&m, "q", &p), "SELECT 1");
    assert_eq!(run(&m, "q", &Params::Object(vec![])), "SELECT 1");
}

#[test]
fn foreach_binds_index_and_keeps_outer_bindings() {
    let m = parse(
        r#"<select id="q"><foreach collection="xs" item="x" index="i" separator="UNION">SELECT #{i}, #{x}, #{t}</foreach></select>"#,
    );
    let p = Params::Object(vec![
        (s("t"), Value::Str(s("k"))),
        (s("xs"), Value::Array(vec![Value::Str(s("a")), Value::Str(s("b"))])),
    ]);
    assert_eq!(run(&m, "q", &p), "SELECT 0, 'a', 'k' UNION SELECT 1, 'b', 'k'");
}

#[test]
fn collections_env_hides_outer_scalars() {
    let m = parse(r#"<select id="q"><foreach collection="xs" item="x">#{x} #{t}</foreach></select>"#);
    let p = Params::Collections(vec![(s("xs"), vec![Value::Int(4)])]);
    assert_eq!(run(&m, "q", &p), "4 NULL");
}

#[test]
fn trim_prefix_and_overrides() {
    let m = parse(
        r#"<select id="t">SELECT * FROM t <trim prefix="WHERE" prefixOverrides="AND ,OR">AND a = 1</trim></select>"#,
    );
    assert_eq!(run(&m, "t", &Params::Object(vec![])), "SELECT * FROM t WHERE a = 1");
}

#[test]
fn trim_suffix_and_overrides() {
    let m = parse(
        r#"<select id="t">SELECT * FROM t <trim prefix="WHERE" suffix="LIMIT 1" suffixOverrides="AND,OR">a = 1 AND</trim></select>"#,
    );
    assert_eq!(run(&m, "t", &Params::Object(vec![])), "SELECT * FROM t WHERE a = 1 LIMIT 1");
}

#[test]
fn trim_comma_override_splits_into_empty_tokens() {
    let m = parse(r#"<insert id="t">INSERT INTO t (<trim suffixOverrides=",">a, b,</trim>)</insert>"#);
    assert_eq!(run(&m, "t", &Params::Object(vec![])), "INSERT INTO t ( a, b, )");
}

#[test]
fn dollar_and_hash_placeholders() {
    let m = parse(r#"<select id="q">SELECT * FROM ${table} WHERE name = #{name}</select>"#);
    let p = Params::Object(vec![
        (s("table"), Value::Str(s("users"))),
        (s("name"), Value::Str(s("O'Brien"))),
    ]);
    assert_eq!(run(&m, "q", &p), "SELECT * FROM users WHERE name = 'O''Brien'");
}

#[test]
fn placeholder_value_forms() {
    let m = parse(r#"<select id="q">#{b} #{f} #{n} #{d} ${s} #{missing} ${arr} #{obj}</select>"#);
    let p = Params::Object(vec![
        (s("b"), Value::Bool(true)),
        (s("f"), Value::Bool(false)),
        (s("n"), Value::Null),
        (s("d"), Value::Decimal(s("1.5"))),
        (s("s"), Value::Str(s("x y"))),
        (s("arr"), Value::Array(vec![Value::Int(-3), Value::Str(s("q\""))])),
        (s("obj"), Value::Object(vec![(s("k"), Value::Bool(false))])),
    ]);
    assert_eq!(run(&m, "q", &p), "1 0 NULL 1.5 x y NULL [-3,\"q\\\"\"] '{\"k\":false}'");
}

#[test]
fn dotted_keys_read_nested_objects() {
    let m = parse(r#"<select id="q">#{a.b.c} #{a.x} #{a.b}</select>"#);
    let p = Params::Object(vec![(
        s("a"),
        Value::Object(vec![(s("b"), Value::Object(vec![(s("c"), Value::Int(42))]))]),
    )]);
    assert_eq!(run(&m, "q", &p), "42 NULL '{\"c\":42}'");
}

#[test]
fn line_breaks_inside_text_become_spaces() {
    let m = parse("<select id=\"q\">SELECT a,\r\n   b\n FROM t <if test=\"x == null\">WHERE\n c = 1</if></select>");
    assert_eq!(run(&m, "q", &Params::Object(vec![])), "SELECT a,    b  FROM t WHERE  c = 1");
}

#[test]
fn spacing_inside_text_is_kept() {
    let node = DynamicSqlNode::Trim {
        prefix: None,
        prefix_overrides: None,
        suffix: None,
        suffix_overrides: None,
        contents: vec![DynamicSqlNode::Text(s("a  b")), DynamicSqlNode::Text(s("  ")), DynamicSqlNode::Text(s("c"))],
    };
    let mapper = Mapper { namespace: s(""), statements: vec![], result_maps: vec![], sql_fragments: vec![] };
    assert_eq!(generate_sql(&node, &Params::Object(vec![]), &mapper), "a  b c");
}

#[test]
fn repeated_object_fields_write_the_last() {
    let node = DynamicSqlNode::Text(s("${o}"));
    let mapper = Mapper { namespace: s(""), statements: vec![], result_maps: vec![], sql_fragments: vec![] };
    let p = Params::Object(vec![(
        s("o"),
        Value::Object(vec![(s("k"), Value::Int(1)), (s("j"), Value::Null), (s("k"), Value::Int(2))]),
    )]);
    assert_eq!(generate_sql(&node, &p, &mapper), "{\"j\":null,\"k\":2}");
}

fn empty_mapper() -> Mapper {
    Mapper { namespace: s(""), statements: vec![], result_maps: vec![], sql_fragments: vec![] }
}

#[test]
fn where_matches_connectives_after_trimming() {
    let node = DynamicSqlNode::Where {
        prefix_overrides: None,
        suffix_overrides: None,
        contents: vec![DynamicSqlNode::Text(s(" AND a = 1"))],
    };
    assert_eq!(generate_sql(&node, &Params::Object(vec![]), &empty_mapper()), "WHERE a = 1");
    let node = DynamicSqlNode::Where {
        prefix_overrides: None,
        suffix_overrides: None,
        contents: vec![DynamicSqlNode::Text(s("ANDROID = 1"))],
    };
    assert_eq!(generate_sql(&node, &Params::Object(vec![]), &empty_mapper()), "WHERE ANDROID = 1");
}

#[test]
fn set_matches_the_comma_after_trimming() {
    let node = DynamicSqlNode::SetClause {
        prefix_overrides: None,
        suffix_overrides: None,
        contents: vec![DynamicSqlNode::Text(s("a = 1, "))],
    };
    assert_eq!(generate_sql(&node, &Params::Object(vec![]), &empty_mapper()), "SET a = 1");
}

#[test]
fn trim_matches_overrides_after_trimming() {
    let node = DynamicSqlNode::Trim {
        prefix: Some(s("WHERE")),
        prefix_overrides: Some(s("AND")),
        suffix: None,
        suffix_overrides: Some(s("OR")),
        contents: vec![DynamicSqlNode::Text(s("  AND a = 1 OR  "))],
    };
    assert_eq!(generate_sql(&node, &Params::Object(vec![]), &empty_mapper()), "WHERE a = 1");
}
