use bazelfe::index_table::IndexParseError;
use bazelfe::index_table::IndexTable;
use bazelfe::index_table::parse_file;
use bazelfe::index_table::parse_index_line;

#[test]
fn parse_sample_line() {
    assert_eq!(
        parse_index_line(
            "PantsWorkaroundCache\t0:@third_party_jvm//3rdparty/jvm/com/twitter:util_cache"
        )
        .unwrap(),
        (
            String::from("PantsWorkaroundCache"),
            vec![(
                0,
                String::from("@third_party_jvm//3rdparty/jvm/com/twitter:util_cache")
            )]
        )
    );
}

#[test]
fn parse_multiple_lines() {
    let parsed_file = parse_file(
        "scala.reflect.internal.SymbolPairs.Cursor.anon.1\t1:@third_party_jvm//3rdparty/jvm/org/scala_lang:scala_reflect
org.apache.parquet.thrift.test.TestPerson.TestPersonTupleScheme\t0:@third_party_jvm//3rdparty/jvm/org/apache/parquet:parquet_thrift_jar_tests
org.apache.commons.lang3.concurrent.MultiBackgroundInitializer\t68:@third_party_jvm//3rdparty/jvm/org/apache/commons:commons_lang3
org.apache.hadoop.util.GcTimeMonitor\t38:@third_party_jvm//3rdparty/jvm/org/apache/hadoop:hadoop_common
org.apache.hadoop.fs.FSProtos.FileStatusProto.FileType\t38:@third_party_jvm//3rdparty/jvm/org/apache/hadoop:hadoop_common
com.twitter.chill.JavaIterableWrapperSerializer\t2:@third_party_jvm//3rdparty/jvm/com/twitter:chill
org.apache.commons.collections4.map.ListOrderedMap$EntrySetView\t0:@third_party_jvm//3rdparty/jvm/org/apache/commons:commons_collections4
scala.collection.convert.AsJavaConverters\t41:@third_party_jvm//3rdparty/jvm/org/scala_lang:scala_library
org.ehcache.xml.XmlConfiguration.1\t0:@third_party_jvm//3rdparty/jvm/org/ehcache:ehcache
com.ibm.icu.text.CharsetRecog_sbcs$CharsetRecog_8859_1_de\t1:@third_party_jvm//3rdparty/jvm/com/ibm/icu:icu4j
scala.reflect.internal.Definitions$DefinitionsClass$VarArityClass\t1:@third_party_jvm//3rdparty/jvm/org/scala_lang:scala_reflect
org.apache.http.nio.pool.AbstractNIOConnPool.1\t0:@third_party_jvm//3rdparty/jvm/org/apache/httpcomponents:httpcore_nio
io.circe.generic.util.macros.DerivationMacros$$typecreator1$1 21:@third_party_jvm//3rdparty/jvm/io/circe:circe_generic
org.apache.zookeeper.server.NettyServerCnxn.DumpCommand\t0:@third_party_jvm//3rdparty/jvm/org/apache/zookeeper:zookeeper
org.apache.logging.log4j.core.appender.OutputStreamAppender$OutputStreamManagerFactory\t53:@third_party_jvm//3rdparty/jvm/org/apache/logging/log4j:log4j_core
com.twitter.finagle.http.service.RoutingService.anonfun\t2:@third_party_jvm//3rdparty/jvm/com/twitter:finagle_http
org.bouncycastle.util.CollectionStor\t10:@third_party_jvm//3rdparty/jvm/org/bouncycastle:bcprov_jdk15on
org.apache.avro.io.parsing.JsonGrammarGenerator$1\t0:@third_party_jvm//3rdparty/jvm/org/apache/avro:avro
org.terracotta.statistics.util\t0:@third_party_jvm//3rdparty/jvm/org/ehcache:ehcache
com.ibm.icu.impl.Normalizer2Impl$1\t1:@third_party_jvm//3rdparty/jvm/com/ibm/icu:icu4j
org.eclipse.jetty.io.ByteBufferPool.Bucket\t0:@third_party_jvm//3rdparty/jvm/org/eclipse"
    ).unwrap();

    assert_eq!(
        parsed_file.get("org.apache.parquet.thrift.test.TestPerson.TestPersonTupleScheme"),
        Some(&vec![(
            0,
            String::from(
                "@third_party_jvm//3rdparty/jvm/org/apache/parquet:parquet_thrift_jar_tests"
            )
        )])
    );
}

#[test]
fn serialize_then_parse_is_identity() {
    let table = IndexTable::from_entries(vec![
        (
            String::from("com.example.Alpha"),
            vec![(7, String::from("//lib/alpha:alpha")), (2, String::from("//lib/beta:beta"))],
        ),
        (
            String::from("com.example.Beta"),
            vec![(0, String::from("@third_party_jvm//3rdparty/jvm/x:y"))],
        ),
    ]);
    let text = table.serialize();
    assert_eq!(
        text,
        String::from(
            "com.example.Alpha\t7://lib/alpha:alpha,2://lib/beta:beta\ncom.example.Beta\t0:@third_party_jvm//3rdparty/jvm/x:y\n"
        )
    );
    let reparsed = parse_file(text.as_str()).unwrap();
    assert_eq!(reparsed.serialize(), text);
    assert_eq!(
        reparsed.get("com.example.Alpha"),
        Some(&vec![
            (7, String::from("//lib/alpha:alpha")),
            (2, String::from("//lib/beta:beta"))
        ])
    );
}

#[test]
fn frequency_over_sixteen_bits_is_rejected() {
    let r = parse_file("com.example.Alpha\t123456789://lib/alpha:alpha\n");
    assert!(matches!(r, Err(IndexParseError { line_number: 0 })));
}

#[test]
fn missing_label_is_rejected() {
    let r = parse_file("com.example.Alpha\t12:\n");
    assert!(matches!(r, Err(IndexParseError { line_number: 0 })));
}

#[test]
fn empty_lines_are_skipped() {
    let t = parse_file("\ncom.example.Alpha\t1:a:b\n\n").unwrap();
    assert_eq!(t.get("com.example.Alpha"), Some(&vec![(1, String::from("a:b"))]));
}

#[test]
fn absent_key_yields_nothing() {
    let t = IndexTable::new();
    assert_eq!(t.get("com.example.Absent"), None);
}

#[test]
fn frequency_bounds_are_sixteen_bits() {
    let ok = parse_file("com.example.Alpha\t65535:a:b\n").unwrap();
    assert_eq!(ok.get("com.example.Alpha"), Some(&vec![(65535, String::from("a:b"))]));
    let over = parse_file("com.example.Alpha\t65536:a:b\n");
    assert!(matches!(over, Err(IndexParseError { line_number: 0 })));
    let zeros = parse_file("com.example.Alpha\t000012:a:b\n").unwrap();
    assert_eq!(zeros.get("com.example.Alpha"), Some(&vec![(12, String::from("a:b"))]));
}
