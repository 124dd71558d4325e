use mybatis_mapper::{add, generate_sql, MyBatisXmlParser, Params, Value};

fn s(x: &str) -> String {
    x.to_string()
}

#[test]
fn it_works() {
    let result = add(2, 2);
    assert_eq!(result, 4);
}

#[test]
fn it_works2() {
    let xml_content = r#"<?xml version="1.0" encoding="UTF-8"?>
    <mapper namespace="com.example.UserMapper">
        <select id="findUserById" parameterType="Long" resultType="User">
            SELECT * FROM users
            WHERE 1=1
            <if test="id != null">
                AND id = #{id}
            </if>
            <if test="name != null and name != ''">
                AND name = #{name}
            </if>
        </select>
        <select id="test_foreach">
        SELECT * FROM tab1 where column155555 in
        <foreach collection="list" index="index" item="item" open="(" separator="," close=")">
            #{item}
        </foreach>
    </select>
    <sql id="sql1">
        select a,b,c,d,e,f,g
    </sql>
    <select id="select0">
        <include refid="sql1"></include>
        from tab1
    </select>
    <insert id="insert2">
        insert into tab2 (ID) values (#{id})
    </insert>
    <insert id="batchInsert">
        INSERT INTO book_attach_ocr_result(
            book_attach_ocr_task_id, book_attach_id
        )
        VALUES
        <foreach collection="list" separator="," item="entity">
            (#{entity.bookAttachOcrTaskId}, #{entity.bookAttachId})
        </foreach>
    </insert>
    <update id="batchUpdateCaseWhen">
    UPDATE company
    <set>
    <trim prefix="`company_name`= CASE company_id" suffix="END,">
        <foreach collection="companies" item="company">
            WHEN #{company.companyId} THEN #{company.companyName}
        </foreach>
    </trim>
    <trim prefix="`is_delete` = CASE company_id" suffix="END,">
        <foreach collection="companies" item="company">
            WHEN #{company.companyId} THEN #{company.isDelete}
        </foreach>
    </trim>
    </set>
    <where>
        company_id in
        <foreach collection="companies" item="company" separator="," open="(" close=")">
            #{company.companyId}
        </foreach>
    </where>
</update>
    </mapper>"#;

    let mut parser = MyBatisXmlParser::new(xml_content);
    let mapper = parser.parse_mapper().unwrap();
    println!("解析结果: {:?} \n", mapper);

    if let Some(statement) = mapper.statement("batchUpdateCaseWhen") {
        let params = Params::Collections(vec![(s("companies"), vec![Value::Int(1)])]);
        if let Some(dynamic_sql) = &statement.dynamic_sql {
            let sql = generate_sql(dynamic_sql, &params, &mapper);
            println!("生成的SQL: {}", sql);
        }
    }
}

#[test]
fn choose_statement() {
    let xml_content = r#"<?xml version="1.0" encoding="UTF-8"?>
    <mapper namespace="com.example.UserMapper">
    <select id="getCourseExamList" resultType="com.qimingdaren.errorbook.dto.exam.ExamJoinSysExamTypeVO">
        <foreach collection="newExamCourseList" item="newExamCourse" separator="UNION">
            (SELECT
            A.examId,
            A.areaCode,
            A.startDate,
            A.examYear,
            A.examMonth,
            B.moduleType,
            #{newExamCourse.courseIds} AS courseIds,
            #{newExamCourse.uniqueKey} AS uniqueKey
            FROM
            exam A,
            sys_exam_type B
            WHERE
            A.examTypeId = B.sysExamTypeId
            AND A.examId IN
            <foreach collection="examIds" item="id" open="(" separator="," close=")">
                #{id}
            </foreach>
            AND A.examStatus IN (2, 3)
            AND A.isDelete = 0
            AND A.examId IN (
            SELECT
            C.examId
            FROM
            report_data C
            WHERE
            C.examId IN
            <foreach collection="examIds" item="id" open="(" separator="," close=")">
                #{id}
            </foreach>
            <choose>
                <when test="newExamCourse.selectContainCourse != null and newExamCourse.selectContainCourse != ''">
                    AND C.sysCourseId IN(#{newExamCourse.selectContainCourse})
                </when>
                <otherwise>
                    AND C.sysCourseId IN(0)
                </otherwise>
            </choose>
            )
            ORDER BY
            A.startDate DESC
            LIMIT 10)
        </foreach>
    </select>
    </mapper>"#;

    let mut parser = MyBatisXmlParser::new(xml_content);
    let mapper = parser.parse_mapper().unwrap();
    println!("解析结果: {:?} \n", mapper);

    if let Some(statement) = mapper.statement("getCourseExamList") {
        let course = || {
            Value::Object(vec![
                (s("selectContainCourse"), Value::Str(s("1,2,3"))),
                (s("courseIds"), Value::Str(s("1001"))),
                (s("uniqueKey"), Value::Str(s("test-key"))),
            ])
        };
        let params = Params::Object(vec![
            (s("newExamCourseList"), Value::Array(vec![course(), course()])),
            (s("examIds"), Value::Array(vec![Value::Int(1), Value::Int(2)])),
        ]);
        if let Some(dynamic_sql) = &statement.dynamic_sql {
            let sql = generate_sql(dynamic_sql, &params, &mapper);
            println!("生成的SQL: {}", sql);
            assert!(sql.contains("AND C.sysCourseId IN('1,2,3')"));
            assert!(sql.contains(") UNION ("));
        }
    }
}
