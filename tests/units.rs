use mybatis_mapper::{
    evaluate_condition, extract_parameters, generate_sql, match_statement, parse_events,
    read_events, replace_included_sql, DynamicSqlNode, KeyValue, Mapper, MyBatisXmlParser,
    ParseError, Params, StatementType, Tag, Value, XmlEvent,
};

fn s(x: &str) -> String {
    x.to_string()
}

fn missing(r: Result<Mapper, ParseError>) -> (String, String) {
    match r {
        Err(ParseError::MissingAttribute(e, a)) => (e, a),
        other => panic!("expected a missing attribute, got {:?}", other),
    }
}

#[test]
fn parses_statements_fragments_and_result_maps() {
    let doc = r#"<?xml version="1.0"?>
<mapper namespace="com.example.M">
  <resultMap id="rm" type="User">
    <result property="id" column="user_id" javaType="Long"/>
    <result property="name" column="user_name"></result>
    <association property="x"><id column="y"/></association>
  </resultMap>
  <sql id="cols">a, b</sql>
  <select id="s" parameterType="map" resultType="User">SELECT <include refid="cols"/> FROM t WHERE id = #{id} AND n = #{ name : VARCHAR} AND k = #{id}</select>
  <insert id="i">INSERT</insert>
  <update id="u">UPDATE</update>
  <delete id="d">DELETE</delete>
  <select id="s">SELECT 2</select>
</mapper>"#;
    let m = MyBatisXmlParser::new(doc).parse_mapper().unwrap();
    assert_eq!(m.namespace, "com.example.M");
    assert_eq!(m.statements.len(), 4);
    let st = m.statement("s").unwrap();
    assert_eq!(st.sql, "SELECT 2");
    assert_eq!(st.stmt_type, Some(StatementType::Select));
    assert_eq!(m.statement("i").unwrap().stmt_type, Some(StatementType::Insert));
    assert_eq!(m.statement("u").unwrap().stmt_type, Some(StatementType::Update));
    assert_eq!(m.statement("d").unwrap().stmt_type, Some(StatementType::Delete));
    assert_eq!(m.sql_fragments.len(), 1);
    assert!(m.fragment("cols").is_some());
    assert_eq!(m.result_maps.len(), 1);
    let rm = &m.result_maps[0];
    assert_eq!(rm.id, "rm");
    assert_eq!(rm.map_type, "User");
    assert_eq!(rm.result_columns.len(), 2);
    assert_eq!(rm.result_columns[0].column, "user_id");
    assert_eq!(rm.result_columns[0].java_type.as_deref(), Some("Long"));
    assert_eq!(rm.result_columns[1].property, "name");
}

#[test]
fn statement_attributes_and_parameters() {
    let doc = r#"<mapper><select id="s" parameterType="map" resultType="User" resultMap="rm">SELECT * FROM t WHERE id = #{id} AND n = #{ name : VARCHAR} AND k = #{id} AND z = #{,x}</select></mapper>"#;
    let m = MyBatisXmlParser::new(doc).parse_mapper().unwrap();
    let st = m.statement("s").unwrap();
    assert_eq!(st.parameter_type.as_deref(), Some("map"));
    assert_eq!(st.result_type.as_deref(), Some("User"));
    assert_eq!(st.result_map.as_deref(), Some("rm"));
    assert_eq!(st.parameters, vec![s("id"), s("name")]);
    assert!(matches!(st.dynamic_sql, Some(DynamicSqlNode::Text(_))));
}

#[test]
fn several_top_nodes_are_wrapped_in_a_bare_trim() {
    let doc = r#"<mapper><select id="s">SELECT 1 <if test="a != null">x</if></select><select id="e"/></mapper>"#;
    let m = MyBatisXmlParser::new(doc).parse_mapper().unwrap();
    match &m.statement("s").unwrap().dynamic_sql {
        Some(DynamicSqlNode::Trim { prefix: None, prefix_overrides: None, suffix: None, suffix_overrides: None, contents }) => {
            assert_eq!(contents.len(), 2)
        },
        other => panic!("unexpected {:?}", other),
    }
    assert!(m.statement("e").unwrap().dynamic_sql.is_none());
}

#[test]
fn legacy_sqlmap_root_is_accepted() {
    let m = MyBatisXmlParser::new(r#"<sqlmap namespace="n"><select id="a">SELECT 1</select></sqlmap>"#)
        .parse_mapper()
        .unwrap();
    assert_eq!(m.namespace, "n");
    assert!(m.statement("a").is_some());
}

#[test]
fn unknown_elements_leave_a_token_in_the_text() {
    let m = MyBatisXmlParser::new(r#"<mapper><select id="a">SELECT <foo>x</foo> 1</select></mapper>"#)
        .parse_mapper()
        .unwrap();
    let st = m.statement("a").unwrap();
    assert_eq!(st.sql, "SELECT<foo/>x1");
    assert_eq!(generate_sql(st.dynamic_sql.as_ref().unwrap(), &Params::Object(vec![]), &m), "SELECT x 1");
}

#[test]
fn missing_id_is_an_error() {
    let r = MyBatisXmlParser::new(r#"<mapper><select>SELECT 1</select></mapper>"#).parse_mapper();
    assert_eq!(missing(r), (s("select"), s("id")));
    let r = MyBatisXmlParser::new(r#"<mapper><sql>a</sql></mapper>"#).parse_mapper();
    assert_eq!(missing(r), (s("sql"), s("id")));
}

#[test]
fn missing_test_and_refid_are_errors() {
    let r = MyBatisXmlParser::new(r#"<mapper><select id="a"><if>x</if></select></mapper>"#).parse_mapper();
    assert_eq!(missing(r), (s("if"), s("test")));
    let r = MyBatisXmlParser::new(r#"<mapper><select id="a"><choose><when>x</when></choose></select></mapper>"#).parse_mapper();
    assert_eq!(missing(r), (s("when"), s("test")));
    let r = MyBatisXmlParser::new(r#"<mapper><select id="a"><include/></select></mapper>"#).parse_mapper();
    assert_eq!(missing(r), (s("include"), s("refid")));
    let r = MyBatisXmlParser::new(r#"<mapper><select id="a"><foreach item="x">x</foreach></select></mapper>"#).parse_mapper();
    assert_eq!(missing(r), (s("foreach"), s("collection")));
    let r = MyBatisXmlParser::new(r#"<mapper><select id="a"><bind value="1"/></select></mapper>"#).parse_mapper();
    assert_eq!(missing(r), (s("bind"), s("name")));
}

#[test]
fn malformed_xml_is_an_error() {
    let doc = r#"<mapper><update id="u"><set><trim>a</trim></trim></set></update></mapper>"#;
    let r = MyBatisXmlParser::new(doc).parse_mapper();
    assert!(matches!(r, Err(ParseError::MalformedXml(_))), "{:?}", r);
}

#[test]
fn invalid_utf8_is_an_encoding_error() {
    let bytes: Vec<u8> = vec![b'<', b'm', b'>', 0xff, 0xfe, b'<', b'/', b'm', b'>'];
    let r = MyBatisXmlParser::new_from_bytes(&bytes).parse_mapper();
    assert!(matches!(r, Err(ParseError::EncodingError(_))), "{:?}", r);
}

#[test]
fn reads_trimmed_events() {
    let ev = read_events(b"<a x=\"1\"> hi <b/></a>").unwrap();
    assert_eq!(ev.len(), 5);
    match &ev[0] {
        XmlEvent::Start(t) => {
            assert_eq!(t.name, "a");
            assert_eq!(t.attrs, vec![(s("x"), s("1"))]);
        },
        other => panic!("unexpected {:?}", other),
    }
    assert!(matches!(&ev[1], XmlEvent::Text(t) if t == "hi"));
    assert!(matches!(&ev[2], XmlEvent::Empty(_)));
    assert!(matches!(&ev[3], XmlEvent::End(n) if n == "a"));
    assert!(matches!(ev[4], XmlEvent::Eof));
}

#[test]
fn parses_hand_built_events() {
    let tag = |n: &str, attrs: Vec<(String, String)>| Tag { name: s(n), attrs };
    let events = vec![
        XmlEvent::Start(tag("mapper", vec![(s("namespace"), s("ns"))])),
        XmlEvent::Start(tag("select", vec![(s("id"), s("a"))])),
        XmlEvent::Text(s("SELECT #{x}")),
        XmlEvent::End(s("select")),
        XmlEvent::End(s("mapper")),
        XmlEvent::Start(tag("select", vec![(s("id"), s("late"))])),
        XmlEvent::Eof,
    ];
    let m = parse_events(&events).unwrap();
    assert_eq!(m.namespace, "ns");
    assert_eq!(m.statements.len(), 1);
    assert_eq!(m.statement("a").unwrap().parameters, vec![s("x")]);
}

#[test]
fn statements_outside_a_mapper_are_ignored() {
    let m = MyBatisXmlParser::new(r#"<root><select id="a">x</select></root>"#).parse_mapper().unwrap();
    assert!(m.statements.is_empty());
}

#[test]
fn parse_conditions_splits_on_and() {
    let kvs = KeyValue::parse_conditions("schoolIdList != null and schoolIdList.size() > 0").unwrap();
    assert_eq!(kvs.len(), 2);
    assert_eq!((kvs[0].key.as_str(), kvs[0].condition.as_str(), kvs[0].value.as_str()), ("schoolIdList", "!=", "null"));
    assert_eq!((kvs[1].key.as_str(), kvs[1].condition.as_str(), kvs[1].value.as_str()), ("schoolIdList.size()", ">", "0"));
    assert!(KeyValue::parse_conditions("x").is_err());
    assert!(KeyValue::parse_conditions("").is_err());
}

#[test]
fn condition_table() {
    let p = Params::Object(vec![
        (s("n"), Value::Int(5)),
        (s("t"), Value::Str(s("abc"))),
        (s("z"), Value::Null),
    ]);
    let t = |c: &str| evaluate_condition(c, &p);
    assert!(t("n != null"));
    assert!(!t("n = null"));
    assert!(!t("n == null"));
    assert!(t("missing == null"));
    assert!(t("missing = null"));
    assert!(!t("missing != null"));
    assert!(t("missing != 'a'"));
    assert!(t("missing != 3"));
    assert!(!t("missing > 3"));
    assert!(!t("missing = 'a'"));
    assert!(t("n = 5") && t("n == 5") && !t("n = 6"));
    assert!(t("n != 6") && !t("n != 5"));
    assert!(t("n > 4") && !t("n > 5") && t("n >= 5") && t("n < 6") && t("n <= 5") && !t("n < 5"));
    assert!(t("n = +5") && !t("n = -5"));
    assert!(t("t = 'abc'") && !t("t = 'abd'") && t("t != 'x'") && !t("t != 'abc'"));
    assert!(!t("t = 3") && t("t != 3"));
    assert!(!t("z = null") && t("z != null"));
    assert!(t("n != null and t = 'abc'"));
    assert!(!t("n != null and t = 'x'"));
    assert!(!t("n == null or t = 'abc'"));
    assert!(t("n != null or t = 'x'"));
    assert!(!t("n ~ 5"));
    assert!(!t(""));
}

#[test]
fn conditions_in_collections_env_see_no_params() {
    let p = Params::Collections(vec![(s("xs"), vec![Value::Int(1)])]);
    assert!(evaluate_condition("xs == null", &p));
    assert!(!evaluate_condition("xs != null", &p));
}

#[test]
fn large_integers_compare_exactly() {
    let p = Params::Object(vec![(s("n"), Value::Int(i64::MIN)), (s("m"), Value::Int(i64::MAX))]);
    assert!(evaluate_condition("n = -9223372036854775808", &p));
    assert!(evaluate_condition("m = 9223372036854775807", &p));
    assert!(!evaluate_condition("m = 9223372036854775808", &p));
    assert!(evaluate_condition("m != 9223372036854775808", &p));
    let node = DynamicSqlNode::Text(s("#{n} ${m}"));
    let mapper = Mapper { namespace: s(""), statements: vec![], result_maps: vec![], sql_fragments: vec![] };
    assert_eq!(generate_sql(&node, &p, &mapper), "-9223372036854775808 9223372036854775807");
}

#[test]
fn extract_parameters_dedups_in_order() {
    assert_eq!(extract_parameters(&s("#{b} #{a} #{b,jdbcType=INT} #{ } #{c:x} #{d")), vec![s("b"), s("a"), s("c")]);
    assert!(extract_parameters(&s("#{abc")).is_empty());
    assert_eq!(extract_parameters(&s("#{a} #{b")), vec![s("a")]);
    assert!(extract_parameters(&s("no params # { x }")).is_empty());
}

#[test]
fn match_statement_names() {
    for n in ["statement", "select", "insert", "update", "delete", "sql"] {
        assert!(match_statement(&s(n)));
    }
    assert!(!match_statement(&s("where")));
    assert!(!match_statement(&s("SELECT")));
}

#[test]
fn replace_included_sql_replaces_markers() {
    let r = replace_included_sql("SELECT __INCLUDE_ID_cols_END__ FROM t, __INCLUDE_ID_cols_END__", "cols", "a, b");
    assert_eq!(r, "SELECT a, b FROM t, a, b");
    assert_eq!(replace_included_sql("x __INCLUDE_ID_other_END__", "cols", "a"), "x __INCLUDE_ID_other_END__");
    assert_eq!(replace_included_sql("x __INCLUDE_ID_(_END__", "(", "a"), "x __INCLUDE_ID_(_END__");
}

#[test]
fn cyclic_includes_end() {
    let doc = r#"<mapper><sql id="a">A <include refid="b"/></sql><sql id="b">B <include refid="a"/></sql><select id="s"><include refid="a"/></select></mapper>"#;
    let m = MyBatisXmlParser::new(doc).parse_mapper().unwrap();
    let st = m.statement("s").unwrap();
    assert_eq!(generate_sql(st.dynamic_sql.as_ref().unwrap(), &Params::Object(vec![]), &m), "A B");
}

#[test]
fn bind_emits_nothing() {
    let doc = r#"<mapper><select id="s">SELECT 1 <bind name="p" value="'%' + x"/></select></mapper>"#;
    let m = MyBatisXmlParser::new(doc).parse_mapper().unwrap();
    let st = m.statement("s").unwrap();
    assert_eq!(generate_sql(st.dynamic_sql.as_ref().unwrap(), &Params::Object(vec![]), &m), "SELECT 1");
}

#[test]
fn later_binding_of_a_name_wins() {
    let p = Params::Object(vec![(s("a"), Value::Int(1)), (s("a"), Value::Int(2))]);
    let node = DynamicSqlNode::Text(s("#{a}"));
    let mapper = Mapper { namespace: s(""), statements: vec![], result_maps: vec![], sql_fragments: vec![] };
    assert_eq!(generate_sql(&node, &p, &mapper), "2");
}

#[test]
fn params_accessors_and_builders() {
    let mut p = Params::new_object();
    p.insert_value(s("a"), Value::Object(vec![(s("b"), Value::Int(3))]));
    p.insert_value(s("xs"), Value::Array(vec![Value::Int(1), Value::Int(2)]));
    assert!(matches!(p.get_param("a.b"), Some(Value::Int(3))));
    assert!(p.get_param("a.c").is_none());
    assert!(p.get_param("b").is_none());
    assert_eq!(p.get_collection("xs").map(|v| v.len()), Some(2));
    assert!(p.get_collection("a").is_none());
    p.insert_collection(s("ys"), vec![]);
    assert!(p.get_collection("ys").is_none());

    let mut c = Params::new_collections();
    c.insert_collection(s("ys"), vec![Value::Null]);
    c.insert_value(s("a"), Value::Int(1));
    assert_eq!(c.get_collection("ys").map(|v| v.len()), Some(1));
    assert!(c.get_param("a").is_none());
    assert!(c.get_param("ys").is_none());
}

#[test]
fn update_case_when_document_is_malformed() {
    let xml_content = r#"<?xml version="1.0" encoding="UTF-8"?>
    <mapper namespace="com.example.UserMapper">
       <update id="batchUpdateCaseWhen">
        UPDATE company
        <set>
        <trim prefix="`company_name`= CASE company_id" suffix="END,">
            <foreach collection="companies" item="company">
                WHEN #{company.companyId} THEN #{company.companyName}
            </foreach>
        </trim>
        <trim prefix="`is_delete` = CASE company_id" suffix="END,">
            <foreach collection="companies" item="company">
                WHEN #{company.companyId} THEN #{company.isDelete}
            </foreach>
        </trim>
        </trim>
        </set>
        <where>
            <foreach collection="companies" item="company" separator="AND">
                company_id = #{company.companyId}
            </foreach>
        </where>
        </update>
    </mapper>"#;
    let r = MyBatisXmlParser::new(xml_content).parse_mapper();
    assert!(matches!(r, Err(ParseError::MalformedXml(_))), "{:?}", r);
}

#[test]
fn missing_placeholders_are_listed() {
    let p = Params::Object(vec![(s("a"), Value::Int(1)), (s("t"), Value::Str(s("#{inner}")))]);
    assert_eq!(
        mybatis_mapper::missing_placeholders("${a} #{b} ${c} #{a} ${t} #{open", &p),
        vec![s("c"), s("b"), s("inner")]
    );
    assert!(mybatis_mapper::missing_placeholders("no placeholders", &p).is_empty());
}

#[test]
fn unresolved_includes_are_listed() {
    let doc = r#"<mapper><sql id="a">A</sql><select id="s"><include refid="a"/><if test="x != null"><include refid="b"/></if><choose><when test="y == 1"><include refid="c"/></when><otherwise><include refid="b"/></otherwise></choose></select></mapper>"#;
    let m = MyBatisXmlParser::new(doc).parse_mapper().unwrap();
    let st = m.statement("s").unwrap();
    assert_eq!(m.unresolved_includes(st.dynamic_sql.as_ref().unwrap()), vec![s("b"), s("c"), s("b")]);
}
