//! New-site scaffolding: name validation and the generated starter files.
use crate::text::push_char;
use vstd::prelude::*;

verus! {

/// What a new site is created from.
#[derive(Clone, Copy, PartialEq, Eq, Debug, Structural)]
pub enum SiteTemplate {
    Blank,
    Laravel,
    Wordpress,
}

/// Why a site could not be created.
#[derive(Debug)]
pub enum ScaffoldError {
    InvalidName(String),
    AlreadyExists(String),
    ToolMissing(String),
    Download(String),
    Command(String),
    Db(String),
    Io(String),
}

/// A character allowed in a DNS label: lowercase ASCII letter, digit or `-`.
pub open spec fn label_char(c: char) -> bool {
    ('a' <= c && c <= 'z') || ('0' <= c && c <= '9') || c == '-'
}

/// A DNS label: 1 to 63 label characters, not starting or ending with `-`.
pub open spec fn valid_label(s: Seq<char>) -> bool {
    &&& 1 <= s.len() <= 63
    &&& forall|i: int| 0 <= i < s.len() ==> label_char(#[trigger] s[i])
    &&& s[0] != '-'
    &&& s.last() != '-'
}

/// Whether `s` is a DNS label (see [`valid_label`]).
pub fn is_valid_label(s: &str) -> (b: bool)
    ensures
        b == valid_label(s@),
{
    let n = s.unicode_len();
    if n < 1 || n > 63 {
        return false;
    }
    let mut i: usize = 0;
    while i < n
        invariant
            n == s@.len(),
            0 <= i <= n,
            forall|j: int| 0 <= j < i ==> label_char(#[trigger] s@[j]),
        decreases n - i,
    {
        let c = s.get_char(i);
        if !(('a' <= c && c <= 'z') || ('0' <= c && c <= '9') || c == '-') {
            return false;
        }
        i = i + 1;
    }
    s.get_char(0) != '-' && s.get_char(n - 1) != '-'
}

/// A valid site name is a DNS label: lowercase alphanumerics and hyphens, not
/// starting or ending with a hyphen, 1 to 63 characters.
pub fn validate_site_name(name: &str) -> (r: Result<(), ScaffoldError>)
    ensures
        r is Ok <==> valid_label(name@),
        r matches Err(ScaffoldError::InvalidName(n)) ==> n@ == name@,
        r is Err ==> r matches Err(ScaffoldError::InvalidName(_)),
{
    if is_valid_label(name) {
        Ok(())
    } else {
        Err(ScaffoldError::InvalidName(name.to_string()))
    }
}

pub const WORDPRESS_URL: &'static str = "https://wordpress.org/latest.tar.gz";

pub const INDEX_HEAD: &'static str = r#"<?php
if (isset($_GET['phpinfo'])) { phpinfo(); exit; }
$exts = ['pdo_mysql','redis','curl','mbstring','gd'];
?><!doctype html>
<html lang="en"><head><meta charset="utf-8">
<meta name="viewport" content="width=device-width, initial-scale=1">
<title>"#;

pub const INDEX_TITLE_TAIL: &'static str = r#" — Laragon Linux</title>
<style>
  body{font-family:system-ui,sans-serif;margin:0;background:#0f1115;color:#e6e8ee;}
  .wrap{max-width:680px;margin:8vh auto;padding:0 24px;}
  h1{font-size:1.6rem;margin:0 0 4px;} .muted{color:#9aa3b2;}
  .card{background:#171a21;border:1px solid #262b36;border-radius:12px;padding:20px;margin-top:20px;}
  .row{display:flex;justify-content:space-between;padding:6px 0;border-bottom:1px solid #20242e;}
  .row:last-child{border-bottom:0;} code{color:#7ee2b8;}
  .ok{color:#34d399;} .no{color:#f87171;}
  a{color:#60a5fa;}
</style></head><body><div class="wrap">
  <h1>🚀 "#;

pub const INDEX_HEADING_TAIL: &'static str = r#"</h1>
  <div class="muted">powered by <strong>Laragon Linux</strong> · <code><?= $_SERVER['HTTP_HOST'] ?? '"#;

pub const INDEX_BODY: &'static str = r#".dev' ?></code></div>
  <div class="card">
    <div class="row"><span>PHP version</span><code><?= phpversion() ?></code></div>
    <div class="row"><span>SAPI</span><code><?= PHP_SAPI ?></code></div>
    <div class="row"><span>Server</span><code><?= $_SERVER['SERVER_SOFTWARE'] ?? '?' ?></code></div>
    <div class="row"><span>Document root</span><code><?= $_SERVER['DOCUMENT_ROOT'] ?? '?' ?></code></div>
    <div class="row"><span>HTTPS</span><code><?= !empty($_SERVER['HTTPS']) ? 'on' : 'off' ?></code></div>
  </div>
  <div class="card">
    <?php foreach ($exts as $e): $on = extension_loaded($e); ?>
      <div class="row"><span><?= $e ?></span><span class="<?= $on?'ok':'no' ?>"><?= $on?'✓ loaded':'✗ missing' ?></span></div>
    <?php endforeach; ?>
  </div>
  <p class="muted" style="margin-top:20px">
    <a href="http://localhost:8025" target="_blank">Mailpit inbox</a> ·
    <a href="?phpinfo">View full phpinfo</a>
  </p>
</div></body></html>
"#;


/// The welcome page of a blank site: `name` in the title, the heading and the
/// default host name.
pub open spec fn spec_blank_index(name: Seq<char>) -> Seq<char> {
    INDEX_HEAD@ + name + INDEX_TITLE_TAIL@ + name + INDEX_HEADING_TAIL@ + name + INDEX_BODY@
}

/// A self-contained welcome page (no external assets) showing app + PHP info.
pub fn blank_index(site_name: &str) -> (s: String)
    ensures
        s@ == spec_blank_index(site_name@),
{
    let mut s = String::new();
    s.append(INDEX_HEAD);
    s.append(site_name);
    s.append(INDEX_TITLE_TAIL);
    s.append(site_name);
    s.append(INDEX_HEADING_TAIL);
    s.append(site_name);
    s.append(INDEX_BODY);
    s
}

/// The `wp-config.php` of a new WordPress site.
pub open spec fn spec_wp_config(
    db_name: Seq<char>,
    db_user: Seq<char>,
    db_pass: Seq<char>,
    db_host: Seq<char>,
    salts: Seq<char>,
) -> Seq<char> {
    "<?php\ndefine( 'DB_NAME', '"@ + db_name + "' );\ndefine( 'DB_USER', '"@ + db_user
        + "' );\ndefine( 'DB_PASSWORD', '"@ + db_pass + "' );\ndefine( 'DB_HOST', '"@ + db_host
        + "' );\ndefine( 'DB_CHARSET', 'utf8mb4' );\ndefine( 'DB_COLLATE', '' );\n\n"@ + salts
        + WP_CONFIG_TAIL@
}

pub const WP_CONFIG_TAIL: &'static str = "\n$table_prefix = 'wp_';\ndefine( 'WP_DEBUG', false );\nif ( ! defined( 'ABSPATH' ) ) { define( 'ABSPATH', __DIR__ . '/' ); }\nrequire_once ABSPATH . 'wp-settings.php';\n";

pub fn wp_config(db_name: &str, db_user: &str, db_pass: &str, db_host: &str, salts: &str) -> (s: String)
    ensures
        s@ == spec_wp_config(db_name@, db_user@, db_pass@, db_host@, salts@),
{
    let mut s = String::new();
    s.append("<?php\ndefine( 'DB_NAME', '");
    s.append(db_name);
    s.append("' );\ndefine( 'DB_USER', '");
    s.append(db_user);
    s.append("' );\ndefine( 'DB_PASSWORD', '");
    s.append(db_pass);
    s.append("' );\ndefine( 'DB_HOST', '");
    s.append(db_host);
    s.append("' );\ndefine( 'DB_CHARSET', 'utf8mb4' );\ndefine( 'DB_COLLATE', '' );\n\n");
    s.append(salts);
    s.append(WP_CONFIG_TAIL);
    s
}

/// The characters a salt is drawn from.
pub const SALT_CHARSET: &'static str = "abcdefghijklmnopqrstuvwxyzABCDEFGHIJKLMNOPQRSTUVWXYZ0123456789!@#$%^&*()-_[]{}";

/// The name of the `k`-th WordPress key or salt.
pub open spec fn salt_key_name(k: int) -> Seq<char> {
    if k == 0 {
        "AUTH_KEY"@
    } else if k == 1 {
        "SECURE_AUTH_KEY"@
    } else if k == 2 {
        "LOGGED_IN_KEY"@
    } else if k == 3 {
        "NONCE_KEY"@
    } else if k == 4 {
        "AUTH_SALT"@
    } else if k == 5 {
        "SECURE_AUTH_SALT"@
    } else if k == 6 {
        "LOGGED_IN_SALT"@
    } else {
        "NONCE_SALT"@
    }
}

fn salt_key(k: usize) -> (r: &'static str)
    ensures
        r@ == salt_key_name(k as int),
{
    if k == 0 {
        "AUTH_KEY"
    } else if k == 1 {
        "SECURE_AUTH_KEY"
    } else if k == 2 {
        "LOGGED_IN_KEY"
    } else if k == 3 {
        "NONCE_KEY"
    } else if k == 4 {
        "AUTH_SALT"
    } else if k == 5 {
        "SECURE_AUTH_SALT"
    } else if k == 6 {
        "LOGGED_IN_SALT"
    } else {
        "NONCE_SALT"
    }
}

/// The 64 salt characters of key `k`, each random byte picking one character
/// of [`SALT_CHARSET`] by its remainder.
pub open spec fn salt_value(rnd: Seq<u8>, k: int) -> Seq<char> {
    Seq::new(64, |i: int| SALT_CHARSET@[(rnd[k * 64 + i] as int) % 78])
}

pub open spec fn salt_line(rnd: Seq<u8>, k: int) -> Seq<char> {
    "define( '"@ + salt_key_name(k) + "', '"@ + salt_value(rnd, k) + "' );\n"@
}

/// The lines of the first `n` keys.
pub open spec fn salt_lines(rnd: Seq<u8>, n: nat) -> Seq<char>
    decreases n,
{
    if n == 0 {
        seq![]
    } else {
        salt_lines(rnd, (n - 1) as nat) + salt_line(rnd, n - 1)
    }
}

/// The eight `define( 'KEY', '<64 chars>' );` lines of WordPress keys and
/// salts, drawn from 512 random bytes.
pub fn wp_salts_from(rnd: &[u8]) -> (s: String)
    requires
        rnd@.len() == 512,
    ensures
        s@ == salt_lines(rnd@, 8),
{
    proof {
        reveal_strlit("abcdefghijklmnopqrstuvwxyzABCDEFGHIJKLMNOPQRSTUVWXYZ0123456789!@#$%^&*()-_[]{}");
    }
    let mut out = String::new();
    let mut k: usize = 0;
    while k < 8
        invariant
            0 <= k <= 8,
            rnd@.len() == 512,
            SALT_CHARSET@.len() == 78,
            out@ == salt_lines(rnd@, k as nat),
        decreases 8 - k,
    {
        let mut val = String::new();
        let mut i: usize = 0;
        while i < 64
            invariant
                0 <= i <= 64,
                k < 8,
                rnd@.len() == 512,
                SALT_CHARSET@.len() == 78,
                val@ == salt_value(rnd@, k as int).take(i as int),
            decreases 64 - i,
        {
            let b = rnd[k * 64 + i];
            let c = SALT_CHARSET.get_char((b % 78) as usize);
            push_char(&mut val, c);
            proof {
                assert(salt_value(rnd@, k as int).take(i + 1) == salt_value(rnd@, k as int).take(i as int).push(c));
            }
            i = i + 1;
        }
        assert(salt_value(rnd@, k as int).take(64) == salt_value(rnd@, k as int));
        out.append("define( '");
        out.append(salt_key(k));
        out.append("', '");
        out.append(val.as_str());
        out.append("' );\n");
        proof {
            assert(out@ == salt_lines(rnd@, k as nat) + salt_line(rnd@, k as int));
        }
        k = k + 1;
    }
    out
}

pub open spec fn spec_create_database_sql(name: Seq<char>) -> Seq<char> {
    "CREATE DATABASE IF NOT EXISTS `"@ + name + "`"@
}

pub fn create_database_sql(name: &str) -> (s: String)
    ensures
        s@ == spec_create_database_sql(name@),
{
    let mut s = String::new();
    s.append("CREATE DATABASE IF NOT EXISTS `");
    s.append(name);
    s.append("`");
    s
}

/// The composer arguments that create a Laravel project in `target_dir`.
pub fn laravel_create_argv(target_dir: &str) -> (v: Vec<String>)
    ensures
        v@.len() == 3,
        v@[0]@ == "create-project"@,
        v@[1]@ == "laravel/laravel"@,
        v@[2]@ == target_dir@,
{
    let mut v: Vec<String> = Vec::new();
    v.push(String::from_str("create-project"));
    v.push(String::from_str("laravel/laravel"));
    v.push(target_dir.to_string());
    v
}

} // verus!
