use std::io::Write;
use zip::unstable::write::FileOptionsExt;
use laralux_core::beekeeper;
use laralux_core::certutil_static::{certutil_arch, certutil_bin, certutil_lib_dir, deb_url, pinned_debs, shared_libraries, CertutilError};
use laralux_core::dbgate;
use laralux_core::mailpit_static::{mailpit_latest_url, mailpit_url, MailpitError};
use laralux_core::mariadb_static::{mariadb_arch, mariadb_url, MARIADB_VERSION};
use laralux_core::mkcert_static::{mkcert_arch, mkcert_url};
use laralux_core::mongodb_static::{mongodb_arch, mongodb_url, mongosh_arch, mongosh_url, MONGODB_VERSION};
use laralux_core::node_static::{node_arch, node_url, NODE_VERSION};
use laralux_core::paths::LaragonPaths;
use laralux_core::postgres_static::{postgres_arch, postgres_url, txz_from_jar, PostgresError, POSTGRES_VERSION};
use laralux_core::redis_static::{valkey_arch, valkey_url, VALKEY_VERSION};
use laralux_core::tools::{known_versions, ManagedTool};

fn known(t: ManagedTool) -> Vec<String> {
    known_versions(t)
}

#[test]
fn deb_url_is_pool_main_absolute() {
    assert_eq!(
        deb_url("n/nss/libnss3_3.98-1build1_amd64.deb"),
        "http://archive.ubuntu.com/ubuntu/pool/main/n/nss/libnss3_3.98-1build1_amd64.deb"
    );
}

#[test]
fn bundle_paths_are_under_versioned_layout() {
    let p = LaragonPaths::new("/tmp/lara".to_string());
    assert_eq!(certutil_bin(&p), "/tmp/lara/bin/certutil/3.98/bin/certutil");
    assert_eq!(certutil_lib_dir(&p), "/tmp/lara/bin/certutil/3.98/lib");
}

#[test]
fn pinned_debs_include_tools_and_libs() {
    let debs = pinned_debs();
    assert!(debs.iter().any(|d| d.contains("libnss3-tools")));
    assert!(debs.iter().any(|d| d.contains("libnspr4")));
    assert_eq!(debs.len(), 4);
}

#[test]
fn arch_maps_x86_64_to_amd64() {
    assert_eq!(certutil_arch("x86_64"), Some("amd64"));
    assert_eq!(certutil_arch("aarch64"), None);
}

#[test]
fn known_versions_include_pinned_default_and_build_urls() {
    assert!(known(ManagedTool::Mariadb).contains(&MARIADB_VERSION.to_string()));
    assert_eq!(
        mariadb_url("10.11.10", "x86_64"),
        "https://archive.mariadb.org/mariadb-10.11.10/bintar-linux-systemd-x86_64/mariadb-10.11.10-linux-systemd-x86_64.tar.gz"
    );
}

#[test]
fn mariadb_url_and_arch() {
    assert_eq!(
        mariadb_url("11.4.12", "x86_64"),
        "https://archive.mariadb.org/mariadb-11.4.12/bintar-linux-systemd-x86_64/mariadb-11.4.12-linux-systemd-x86_64.tar.gz"
    );
    assert_eq!(mariadb_arch("x86_64"), Some("x86_64"));
    assert_eq!(mariadb_arch("aarch64"), Some("aarch64"));
    assert_eq!(mariadb_arch("riscv64"), None);
}

#[test]
fn mongodb_static_known_versions_include_pinned_default() {
    assert!(known(ManagedTool::Mongodb).contains(&MONGODB_VERSION.to_string()));
}

#[test]
fn mongodb_urls_and_arch() {
    assert_eq!(mongodb_url("8.0.4", "x86_64"), "https://fastdl.mongodb.org/linux/mongodb-linux-x86_64-ubuntu2204-8.0.4.tgz");
    assert_eq!(mongodb_url("8.0.4", "aarch64"), "https://fastdl.mongodb.org/linux/mongodb-linux-aarch64-ubuntu2204-8.0.4.tgz");
    assert_eq!(mongosh_url("2.3.8", "x64"), "https://downloads.mongodb.com/compass/mongosh-2.3.8-linux-x64.tgz");
    assert_eq!(mongosh_url("2.3.8", "arm64"), "https://downloads.mongodb.com/compass/mongosh-2.3.8-linux-arm64.tgz");
    assert_eq!(mongodb_arch("x86_64"), Some("x86_64"));
    assert_eq!(mongosh_arch("x86_64"), Some("x64"));
    assert_eq!(mongosh_arch("aarch64"), Some("arm64"));
}

#[test]
fn node_static_known_versions_include_pinned_default() {
    assert!(known(ManagedTool::Node).contains(&NODE_VERSION.to_string()));
    assert_eq!(node_url("20.20.2", "arm64"), "https://nodejs.org/dist/v20.20.2/node-v20.20.2-linux-arm64.tar.xz");
}

#[test]
fn node_url_and_arch() {
    assert_eq!(node_url("24.18.0", "x64"), "https://nodejs.org/dist/v24.18.0/node-v24.18.0-linux-x64.tar.xz");
    assert_eq!(node_arch("x86_64"), Some("x64"));
    assert_eq!(node_arch("aarch64"), Some("arm64"));
}

#[test]
fn postgres_static_known_versions_include_pinned_default() {
    assert!(known(ManagedTool::Postgres).contains(&POSTGRES_VERSION.to_string()));
}

#[test]
fn postgres_url_and_arch() {
    assert_eq!(
        postgres_url("16.6.0", "amd64"),
        "https://repo1.maven.org/maven2/io/zonky/test/postgres/embedded-postgres-binaries-linux-amd64/16.6.0/embedded-postgres-binaries-linux-amd64-16.6.0.jar"
    );
    assert_eq!(postgres_arch("x86_64"), Some("amd64"));
    assert_eq!(postgres_arch("aarch64"), Some("arm64v8"));
}

#[test]
fn redis_static_known_versions_include_pinned_default() {
    assert!(known(ManagedTool::Redis).contains(&VALKEY_VERSION.to_string()));
    assert_eq!(valkey_url("8.0.4", "x86_64"), "https://download.valkey.io/releases/valkey-8.0.4-jammy-x86_64.tar.gz");
}

#[test]
fn valkey_url_and_arch() {
    assert_eq!(valkey_url("9.1.0", "x86_64"), "https://download.valkey.io/releases/valkey-9.1.0-jammy-x86_64.tar.gz");
    assert_eq!(valkey_arch("aarch64"), Some("arm64"));
}

#[test]
fn mkcert_and_mailpit_urls() {
    assert_eq!(
        mkcert_url("1.4.4", "amd64"),
        "https://github.com/FiloSottile/mkcert/releases/download/v1.4.4/mkcert-v1.4.4-linux-amd64"
    );
    assert_eq!(mkcert_arch("x86_64"), Some("amd64"));
    assert_eq!(
        mailpit_url("1.20.0", "amd64"),
        "https://github.com/axllent/mailpit/releases/download/v1.20.0/mailpit-linux-amd64.tar.gz"
    );
    assert_eq!(
        mailpit_latest_url("arm64"),
        "https://github.com/axllent/mailpit/releases/latest/download/mailpit-linux-arm64.tar.gz"
    );
    assert_eq!(MailpitError::Extract("x".to_string()).message(), "extract failed: x");
}

#[test]
fn desktop_app_urls_and_paths() {
    assert_eq!(
        beekeeper::appimage_url("5.8.1", "-arm64"),
        "https://github.com/beekeeper-studio/beekeeper-studio/releases/download/v5.8.1/Beekeeper-Studio-5.8.1-arm64.AppImage"
    );
    assert_eq!(beekeeper::beekeeper_arch("x86_64"), Some(""));
    assert_eq!(
        dbgate::appimage_url("7.2.1", "x86_64"),
        "https://github.com/dbgate/dbgate/releases/download/v7.2.1/dbgate-7.2.1-linux_x86_64.AppImage"
    );
    let p = LaragonPaths::new("/tmp/lara".to_string());
    assert_eq!(beekeeper::install_dir(&p), "/tmp/lara/apps/beekeeper");
    assert_eq!(dbgate::apprun_path(&p), "/tmp/lara/apps/dbgate/squashfs-root/AppRun");
    assert_eq!(dbgate::DbgateError::NotInstalled.message(), "not installed");
}

fn jar_with(entries: &[(&str, &[u8])]) -> Vec<u8> {
    let mut w = zip::ZipWriter::new(std::io::Cursor::new(Vec::new()));
    let opts = zip::write::SimpleFileOptions::default().compression_method(zip::CompressionMethod::Stored);
    for (name, data) in entries {
        w.start_file(*name, opts).unwrap();
        w.write_all(data).unwrap();
    }
    w.finish().unwrap().into_inner()
}

#[test]
fn postgres_jar_yields_its_txz_tree() {
    let jar = jar_with(&[("META-INF/MANIFEST.MF", b"Manifest-Version: 1.0\n"), ("postgres-linux-x86_64.txz", b"xz-bytes")]);
    assert_eq!(txz_from_jar(&jar).unwrap(), b"xz-bytes".to_vec());
}

#[test]
fn postgres_jar_without_txz_or_unreadable_is_an_extract_error() {
    let jar = jar_with(&[("README", b"hello")]);
    match txz_from_jar(&jar) {
        Err(PostgresError::Extract(m)) => assert_eq!(m, "no .txz entry in jar"),
        other => panic!("unexpected: {other:?}"),
    }
    assert!(matches!(txz_from_jar(b"not a zip archive"), Err(PostgresError::Extract(_))));
}

#[test]
fn postgres_jar_takes_the_first_txz_it_can_open() {
    let jar = jar_with(&[("a.txt", b"text"), ("b.txz", b"bee"), ("c.txz", b"sea")]);
    assert_eq!(txz_from_jar(&jar).unwrap(), b"bee".to_vec());
    // an entry that cannot be opened (encrypted) is passed over
    let mut w = zip::ZipWriter::new(std::io::Cursor::new(Vec::new()));
    let plain = zip::write::SimpleFileOptions::default().compression_method(zip::CompressionMethod::Stored);
    let locked = plain.with_deprecated_encryption(b"secret");
    w.start_file("a.txz", locked).unwrap();
    w.write_all(b"hidden").unwrap();
    w.start_file("b.txz", plain).unwrap();
    w.write_all(b"open").unwrap();
    let jar = w.finish().unwrap().into_inner();
    assert_eq!(txz_from_jar(&jar).unwrap(), b"open".to_vec());
}

#[test]
fn certutil_copies_only_shared_objects() {
    let files = vec!["libnss3.so".to_string(), "README.Debian".to_string(), "libnspr4.so.0d".to_string()];
    assert_eq!(shared_libraries(&files).unwrap(), vec!["libnss3.so".to_string(), "libnspr4.so.0d".to_string()]);
    match shared_libraries(&vec!["changelog.gz".to_string()]) {
        Err(CertutilError::Layout(m)) => assert_eq!(m, "no shared libraries found in extracted debs"),
        other => panic!("unexpected: {other:?}"),
    }
    assert!(matches!(shared_libraries(&Vec::new()), Err(CertutilError::Layout(_))));
}

#[test]
fn postgres_jar_entry_that_fails_to_read_is_an_io_error() {
    let mut jar = jar_with(&[("postgres-linux-x86_64.txz", b"xz-bytes")]);
    let at = jar.windows(8).position(|w| w == b"xz-bytes").unwrap();
    jar[at] = b'X';
    assert!(matches!(txz_from_jar(&jar), Err(PostgresError::Io(_))));
}
