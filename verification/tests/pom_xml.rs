use dependable_core::{DependencyKind, Item, ManifestKind, PackageSource, ParsedManifest, Parser, PomXmlParser};

fn parse(content: &str) -> ParsedManifest {
    PomXmlParser.parse(content).unwrap()
}

fn sliced<'a>(content: &'a str, item: &Item) -> &'a str {
    let line = content.lines().nth(item.version_line).unwrap();
    &line[item.version_col_start..item.version_col_end]
}

fn find<'a>(manifest: &'a ParsedManifest, name: &str) -> &'a Item {
    manifest
        .items
        .iter()
        .find(|item| item.name == name)
        .unwrap_or_else(|| panic!("no item {name}"))
}

fn pom(body: &str) -> String {
    format!(
        "<project xmlns=\"http://maven.apache.org/POM/4.0.0\">\n\
             {body}</project>\n"
    )
}

#[test]
fn parses_literal_versions_with_positions() {
    let content = pom("  <dependencies>\n\
             \x20   <dependency>\n\
             \x20     <groupId>com.google.guava</groupId>\n\
             \x20     <artifactId>guava</artifactId>\n\
             \x20     <version>32.1.3-jre</version>\n\
             \x20   </dependency>\n\
             \x20 </dependencies>\n");
    let m = parse(&content);
    assert_eq!(m.kind, ManifestKind::PomXml);
    let guava = find(&m, "com.google.guava:guava");
    assert_eq!(guava.version_constraint, "32.1.3-jre");
    assert_eq!(sliced(&content, guava), "32.1.3-jre");
    assert_eq!(guava.source, PackageSource::Registry);
    assert!(guava.is_rewritable());
}

#[test]
fn a_property_used_once_carries_the_line_that_states_it() {
    let content = pom("  <properties>\n\
             \x20   <okhttp.version>4.12.0</okhttp.version>\n\
             \x20 </properties>\n\
             \x20 <dependencies>\n\
             \x20   <dependency>\n\
             \x20     <groupId>com.squareup.okhttp3</groupId>\n\
             \x20     <artifactId>okhttp</artifactId>\n\
             \x20     <version>${okhttp.version}</version>\n\
             \x20   </dependency>\n\
             \x20 </dependencies>\n");
    let m = parse(&content);
    let okhttp = find(&m, "com.squareup.okhttp3:okhttp");
    assert_eq!(okhttp.version_constraint, "4.12.0");
    assert_eq!(sliced(&content, okhttp), "4.12.0");
    assert!(okhttp.is_rewritable());
}

#[test]
fn a_shared_property_is_resolved_but_never_rewritten() {
    let content = pom("  <properties>\n\
             \x20   <jackson.version>2.17.0</jackson.version>\n\
             \x20 </properties>\n\
             \x20 <dependencies>\n\
             \x20   <dependency>\n\
             \x20     <groupId>com.fasterxml.jackson.core</groupId>\n\
             \x20     <artifactId>jackson-core</artifactId>\n\
             \x20     <version>${jackson.version}</version>\n\
             \x20   </dependency>\n\
             \x20   <dependency>\n\
             \x20     <groupId>com.fasterxml.jackson.core</groupId>\n\
             \x20     <artifactId>jackson-databind</artifactId>\n\
             \x20     <version>${jackson.version}</version>\n\
             \x20   </dependency>\n\
             \x20 </dependencies>\n");
    let m = parse(&content);
    for artifact in ["jackson-core", "jackson-databind"] {
        let item = find(&m, &format!("com.fasterxml.jackson.core:{artifact}"));
        assert_eq!(item.version_constraint, "2.17.0", "{artifact}");
        assert_eq!(item.source, PackageSource::Inherited, "{artifact}");
        assert!(item.is_checkable(), "{artifact}");
        assert!(!item.is_rewritable(), "{artifact}");
    }
}

#[test]
fn an_unresolvable_version_is_reported_without_a_constraint() {
    let content = pom("  <parent>\n\
             \x20   <groupId>org.springframework.boot</groupId>\n\
             \x20   <artifactId>spring-boot-starter-parent</artifactId>\n\
             \x20   <version>3.2.5</version>\n\
             \x20 </parent>\n\
             \x20 <dependencies>\n\
             \x20   <dependency>\n\
             \x20     <groupId>org.springframework.boot</groupId>\n\
             \x20     <artifactId>spring-boot-starter-web</artifactId>\n\
             \x20   </dependency>\n\
             \x20   <dependency>\n\
             \x20     <groupId>org.example</groupId>\n\
             \x20     <artifactId>sibling</artifactId>\n\
             \x20     <version>${project.version}</version>\n\
             \x20   </dependency>\n\
             \x20   <dependency>\n\
             \x20     <groupId>org.example</groupId>\n\
             \x20     <artifactId>composed</artifactId>\n\
             \x20     <version>1.${minor}</version>\n\
             \x20   </dependency>\n\
             \x20 </dependencies>\n");
    let m = parse(&content);

    let names: Vec<&str> = m.items.iter().map(|i| i.name.as_str()).collect();
    assert_eq!(
        names,
        vec![
            "org.springframework.boot:spring-boot-starter-web",
            "org.example:sibling",
            "org.example:composed",
        ]
    );
    for item in &m.items {
        assert!(item.version_constraint.is_empty(), "{item:?}");
        assert_eq!(item.source, PackageSource::Inherited, "{item:?}");
        assert!(!item.is_checkable(), "{item:?}");
        assert!(!item.has_position(), "{item:?}");
    }
}

#[test]
fn only_the_projects_own_dependencies_are_read() {
    let content = pom("  <dependencyManagement>\n\
             \x20   <dependencies>\n\
             \x20     <dependency>\n\
             \x20       <groupId>managed</groupId>\n\
             \x20       <artifactId>managed</artifactId>\n\
             \x20       <version>1.0.0</version>\n\
             \x20     </dependency>\n\
             \x20   </dependencies>\n\
             \x20 </dependencyManagement>\n\
             \x20 <build>\n\
             \x20   <plugins>\n\
             \x20     <plugin>\n\
             \x20       <dependencies>\n\
             \x20         <dependency>\n\
             \x20           <groupId>plugin</groupId>\n\
             \x20           <artifactId>plugin</artifactId>\n\
             \x20           <version>2.0.0</version>\n\
             \x20         </dependency>\n\
             \x20       </dependencies>\n\
             \x20     </plugin>\n\
             \x20   </plugins>\n\
             \x20 </build>\n\
             \x20 <dependencies>\n\
             \x20   <dependency>\n\
             \x20     <groupId>real</groupId>\n\
             \x20     <artifactId>real</artifactId>\n\
             \x20     <version>3.0.0</version>\n\
             \x20   </dependency>\n\
             \x20 </dependencies>\n");
    let m = parse(&content);
    let names: Vec<&str> = m.items.iter().map(|i| i.name.as_str()).collect();
    assert_eq!(names, vec!["real:real"]);
}

#[test]
fn scope_and_optional_name_the_section() {
    let content = pom("  <dependencies>\n\
             \x20   <dependency>\n\
             \x20     <groupId>org.junit.jupiter</groupId>\n\
             \x20     <artifactId>junit-jupiter</artifactId>\n\
             \x20     <version>5.10.2</version>\n\
             \x20     <scope>test</scope>\n\
             \x20   </dependency>\n\
             \x20   <dependency>\n\
             \x20     <groupId>org.example</groupId>\n\
             \x20     <artifactId>extra</artifactId>\n\
             \x20     <version>1.0.0</version>\n\
             \x20     <optional>true</optional>\n\
             \x20   </dependency>\n\
             \x20   <dependency>\n\
             \x20     <groupId>org.example</groupId>\n\
             \x20     <artifactId>vendored</artifactId>\n\
             \x20     <version>1.0.0</version>\n\
             \x20     <scope>system</scope>\n\
             \x20     <systemPath>/opt/vendored.jar</systemPath>\n\
             \x20   </dependency>\n\
             \x20 </dependencies>\n");
    let m = parse(&content);
    assert_eq!(
        find(&m, "org.junit.jupiter:junit-jupiter").kind,
        DependencyKind::Dev
    );
    assert_eq!(find(&m, "org.example:extra").kind, DependencyKind::Optional);

    let vendored = find(&m, "org.example:vendored");
    assert_eq!(vendored.source, PackageSource::Local);
    assert!(!vendored.is_checkable(), "a system jar has no registry");
}

#[test]
fn a_property_chain_resolves_to_the_line_that_states_a_literal() {
    let content = pom("  <properties>\n\
             \x20   <alias>real.version</alias>\n\
             \x20   <real.version>9.9.9</real.version>\n\
             \x20 </properties>\n\
             \x20 <dependencies>\n\
             \x20   <dependency>\n\
             \x20     <groupId>g</groupId>\n\
             \x20     <artifactId>a</artifactId>\n\
             \x20     <version>${alias}</version>\n\
             \x20   </dependency>\n\
             \x20 </dependencies>\n");

    let m = parse(&content);
    assert_eq!(find(&m, "g:a").version_constraint, "real.version");

    let chained = content.replace(
        "<alias>real.version</alias>",
        "<alias>${real.version}</alias>",
    );
    let m = parse(&chained);
    let item = find(&m, "g:a");
    assert_eq!(item.version_constraint, "9.9.9");
    assert_eq!(sliced(&chained, item), "9.9.9");
}

#[test]
fn a_property_cycle_resolves_to_nothing() {
    let content = pom("  <properties>\n\
             \x20   <a>${b}</a>\n\
             \x20   <b>${a}</b>\n\
             \x20 </properties>\n\
             \x20 <dependencies>\n\
             \x20   <dependency>\n\
             \x20     <groupId>g</groupId>\n\
             \x20     <artifactId>a</artifactId>\n\
             \x20     <version>${a}</version>\n\
             \x20   </dependency>\n\
             \x20 </dependencies>\n");
    let m = parse(&content);
    assert_eq!(find(&m, "g:a").version_constraint, "");
}

#[test]
fn a_coordinate_may_be_stated_by_property() {
    let content = pom("  <properties>\n\
             \x20   <group>org.example</group>\n\
             \x20 </properties>\n\
             \x20 <dependencies>\n\
             \x20   <dependency>\n\
             \x20     <groupId>${group}</groupId>\n\
             \x20     <artifactId>named</artifactId>\n\
             \x20     <version>1.0.0</version>\n\
             \x20   </dependency>\n\
             \x20   <dependency>\n\
             \x20     <groupId>${project.groupId}</groupId>\n\
             \x20     <artifactId>unnameable</artifactId>\n\
             \x20     <version>1.0.0</version>\n\
             \x20   </dependency>\n\
             \x20 </dependencies>\n");
    let m = parse(&content);
    let names: Vec<&str> = m.items.iter().map(|i| i.name.as_str()).collect();
    assert_eq!(names, vec!["org.example:named"]);
}

#[test]
fn a_span_excludes_the_whitespace_around_the_text() {
    let content = pom("  <dependencies>\n\
             \x20   <dependency>\n\
             \x20     <groupId>g</groupId>\n\
             \x20     <artifactId>a</artifactId>\n\
             \x20     <version>\n\
             \x20       1.2.3\n\
             \x20     </version>\n\
             \x20   </dependency>\n\
             \x20 </dependencies>\n");
    let m = parse(&content);
    let item = find(&m, "g:a");
    assert_eq!(item.version_constraint, "1.2.3");
    assert_eq!(sliced(&content, item), "1.2.3");
}

#[test]
fn malformed_xml_is_a_structural_error() {
    assert!(PomXmlParser.parse("<project><dependencies>").is_err());
}

#[test]
fn a_pom_without_dependencies_yields_none() {
    let m = parse(&pom("  <artifactId>solo</artifactId>\n"));
    assert!(m.items.is_empty());
}

#[test]
fn a_version_that_is_not_plain_text_has_no_place() {
    let content = pom("<dependencies><dependency><groupId>g</groupId><artifactId>a</artifactId>\
         <version><![CDATA[]]>1.2.3-beta.1</version></dependency></dependencies>");
    let m = parse(&content);
    let a = find(&m, "g:a");
    assert_eq!(a.version_constraint, "1.2.3-beta.1");
    assert_eq!(a.source, PackageSource::Inherited);
    assert!(!a.is_rewritable());
}
