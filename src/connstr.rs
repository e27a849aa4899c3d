use vstd::prelude::*;

use crate::text::{chars_of, digits_value, first_index, lemma_first_index, push_range, string_of, trim_text, trimmed_of};

verus! {

/// What `str::to_lowercase` returns for a text.
pub uninterp spec fn lower_of(s: Seq<char>) -> Seq<char>;

/// Relies on `str::to_lowercase`: the lower-case mapping of the text, which is
/// a function of the text alone.
#[verifier::external_body]
fn lower_text(s: &str) -> (r: String)
    ensures
        r@ == lower_of(s@),
{
    s.to_lowercase()
}

/// Connection parameters read from a connection string.
#[derive(Debug)]
pub struct ConnectionConfig {
    pub host: String,
    pub port: u16,
    pub database: String,
    pub uid: String,
    pub pwd: String,
    pub trust_cert: bool,
}

/// Connection parameters as text: host, port, database, user, password, certificate trust.
pub type ConfigModel = (Seq<char>, u16, Seq<char>, Seq<char>, Seq<char>, bool);

pub open spec fn config_model(c: ConnectionConfig) -> ConfigModel {
    (c.host@, c.port, c.database@, c.uid@, c.pwd@, c.trust_cert)
}

/// Parameters of an empty connection string.
pub open spec fn default_config() -> ConfigModel {
    ("localhost"@, 1433, "master"@, Seq::empty(), Seq::empty(), false)
}

/// The pieces of `s` between the separators `sep`, in order (one piece when none occurs).
pub open spec fn split_on(s: Seq<char>, sep: char) -> Seq<Seq<char>>
    decreases s.len(),
{
    if s.len() == 0 {
        seq![Seq::empty()]
    } else if s.last() == sep {
        split_on(s.drop_last(), sep).push(Seq::empty())
    } else {
        let prev = split_on(s.drop_last(), sep);
        prev.update(prev.len() - 1, prev.last().push(s.last()))
    }
}

proof fn lemma_split_nonempty(s: Seq<char>, sep: char)
    ensures
        split_on(s, sep).len() >= 1,
    decreases s.len(),
{
    if s.len() > 0 {
        lemma_split_nonempty(s.drop_last(), sep);
    }
}

/// Code of `c` with ASCII upper-case letters mapped to lower case.
pub open spec fn ascii_fold(c: char) -> u32 {
    if 65 <= c as u32 <= 90 {
        (c as u32 + 32) as u32
    } else {
        c as u32
    }
}

/// Equal up to ASCII case.
pub open spec fn eq_ascii_case(a: Seq<char>, b: Seq<char>) -> bool {
    a.len() == b.len() && forall|i: int| 0 <= i < a.len() ==> ascii_fold(a[i]) == ascii_fold(b[i])
}

/// Every character of `d` is a decimal digit.
pub open spec fn all_digits(d: Seq<char>) -> bool {
    forall|i: int| 0 <= i < d.len() ==> '0' <= #[trigger] d[i] <= '9'
}

/// `s` without one leading `+`, if it has one.
pub open spec fn unsigned_body(s: Seq<char>) -> Seq<char> {
    if s.len() > 0 && s[0] == '+' {
        s.subrange(1, s.len() as int)
    } else {
        s
    }
}

/// The port number that `s` spells: an optional `+`, then one or more decimal
/// digits whose value fits 16 bits.
pub open spec fn parse_port(s: Seq<char>) -> Option<u16> {
    let d = unsigned_body(s);
    if d.len() > 0 && all_digits(d) && digits_value(d) <= 65535 {
        Some(digits_value(d) as u16)
    } else {
        None
    }
}

/// Truthy spellings of the certificate-trust flag.
pub open spec fn is_truthy(v: Seq<char>) -> bool {
    eq_ascii_case(v, "yes"@) || v == "1"@ || eq_ascii_case(v, "true"@)
}

/// Applies the value of a `server` key: `host[,port]`.
pub open spec fn apply_server(cfg: ConfigModel, val: Seq<char>) -> ConfigModel {
    match first_index(val, ',') {
        Some(c) => {
            let port = parse_port(trimmed_of(val.subrange(c + 1, val.len() as int)));
            (
                val.subrange(0, c),
                if port is Some { port->0 } else { cfg.1 },
                cfg.2,
                cfg.3,
                cfg.4,
                cfg.5,
            )
        },
        None => (val, cfg.1, cfg.2, cfg.3, cfg.4, cfg.5),
    }
}

/// Applies a lower-cased key and its trimmed value; unknown keys change nothing.
pub open spec fn apply_setting_spec(cfg: ConfigModel, key: Seq<char>, val: Seq<char>) -> ConfigModel {
    if key == "server"@ {
        apply_server(cfg, val)
    } else if key == "database"@ || key == "initial catalog"@ {
        (cfg.0, cfg.1, val, cfg.3, cfg.4, cfg.5)
    } else if key == "uid"@ || key == "user id"@ {
        (cfg.0, cfg.1, cfg.2, val, cfg.4, cfg.5)
    } else if key == "pwd"@ || key == "password"@ {
        (cfg.0, cfg.1, cfg.2, cfg.3, val, cfg.5)
    } else if key == "trustservercertificate"@ {
        (cfg.0, cfg.1, cfg.2, cfg.3, cfg.4, is_truthy(val))
    } else {
        cfg
    }
}

/// Applies one `key=value` piece of a connection string; other pieces change nothing.
pub open spec fn apply_part(cfg: ConfigModel, part: Seq<char>) -> ConfigModel {
    let p = trimmed_of(part);
    match first_index(p, '=') {
        None => cfg,
        Some(i) => {
            let key = lower_of(trimmed_of(p.subrange(0, i)));
            let val = trimmed_of(p.subrange(i + 1, p.len() as int));
            apply_setting_spec(cfg, key, val)
        },
    }
}

/// Parameters after applying the pieces in order to the defaults.
pub open spec fn config_of(parts: Seq<Seq<char>>) -> ConfigModel
    decreases parts.len(),
{
    if parts.len() == 0 {
        default_config()
    } else {
        apply_part(config_of(parts.drop_last()), parts.last())
    }
}

/// Index of the first `c` in `v`.
fn find_char(v: &Vec<char>, c: char) -> (r: Option<usize>)
    ensures
        r is None ==> first_index(v@, c) is None,
        r matches Some(i) ==> first_index(v@, c) == Some(i as int) && i < v@.len(),
{
    for i in 0..v.len()
        invariant
            forall|j: int| 0 <= j < i ==> v@[j] != c,
    {
        if v[i] == c {
            proof {
                lemma_first_index(v@, c, i as int);
            }
            return Some(i);
        }
    }
    None
}

/// The characters of `v` from `lo` up to `hi`, as a string.
fn substring(v: &Vec<char>, lo: usize, hi: usize) -> (r: String)
    requires
        lo <= hi <= v@.len(),
    ensures
        r@ == v@.subrange(lo as int, hi as int),
{
    let mut out = String::new();
    push_range(&mut out, v, lo, hi);
    out
}

/// Trimmed text of `v`, as characters.
fn trimmed_chars(v: &Vec<char>) -> (r: Vec<char>)
    ensures
        r@ == trimmed_of(v@),
{
    let s = string_of(v);
    chars_of(trim_text(s.as_str()))
}

/// Whether two texts are equal.
fn text_eq(a: &Vec<char>, b: &str) -> (r: bool)
    ensures
        r == (a@ == b@),
{
    let bv = chars_of(b);
    if a.len() != bv.len() {
        return false;
    }
    for i in 0..a.len()
        invariant
            a@.len() == bv@.len(),
            bv@ == b@,
            forall|j: int| 0 <= j < i ==> a@[j] == bv@[j],
    {
        if a[i] != bv[i] {
            assert(a@[i as int] != bv@[i as int]);
            return false;
        }
    }
    assert(a@ =~= b@);
    true
}

fn fold_code(c: char) -> (r: u32)
    ensures
        r == ascii_fold(c),
{
    let u = c as u32;
    if 65 <= u && u <= 90 {
        u + 32
    } else {
        u
    }
}

/// Whether two texts are equal up to ASCII case.
fn eq_ignore_case(a: &Vec<char>, b: &str) -> (r: bool)
    ensures
        r == eq_ascii_case(a@, b@),
{
    let bv = chars_of(b);
    if a.len() != bv.len() {
        return false;
    }
    for i in 0..a.len()
        invariant
            a@.len() == bv@.len(),
            bv@ == b@,
            forall|j: int| 0 <= j < i ==> ascii_fold(a@[j]) == ascii_fold(bv@[j]),
    {
        if fold_code(a[i]) != fold_code(bv[i]) {
            assert(ascii_fold(a@[i as int]) != ascii_fold(bv@[i as int]));
            return false;
        }
    }
    true
}

/// Parses a port number: an optional `+`, then decimal digits whose value fits 16 bits.
pub fn parse_port_text(v: &Vec<char>) -> (r: Option<u16>)
    ensures
        r == parse_port(v@),
{
    let start: usize = if v.len() > 0 && v[0] == '+' {
        1
    } else {
        0
    };
    let ghost d = unsigned_body(v@);
    assert(d =~= v@.subrange(start as int, v@.len() as int));
    if start == v.len() {
        return None;
    }
    let mut val: u32 = 0;
    for i in start..v.len()
        invariant
            start <= v@.len(),
            d == v@.subrange(start as int, v@.len() as int),
            d == unsigned_body(v@),
            forall|j: int| start <= j < i ==> '0' <= #[trigger] v@[j] <= '9',
            val as nat == if digits_value(v@.subrange(start as int, i as int)) > 65536 {
                65536
            } else {
                digits_value(v@.subrange(start as int, i as int))
            },
    {
        let c = v[i];
        if c < '0' || c > '9' {
            assert(d[i - start] == c);
            assert(!('0' <= d[i - start] <= '9'));
            assert(!all_digits(d));
            assert(parse_port(v@) is None);
            return None;
        }
        let ghost pre = v@.subrange(start as int, i as int);
        let ghost next = v@.subrange(start as int, i + 1);
        assert(next.drop_last() =~= pre);
        let digit = (c as u32) - 48;
        let grown = val * 10 + digit;
        val = if grown > 65536 {
            65536
        } else {
            grown
        };
    }
    assert(forall|j: int| 0 <= j < d.len() ==> d[j] == v@[start + j]);
    if val > 65535 {
        None
    } else {
        Some(val as u16)
    }
}

/// Applies one `key=value` piece of a connection string.
fn apply_part_exec(cfg: &mut ConnectionConfig, part: &Vec<char>)
    ensures
        config_model(*final(cfg)) == apply_part(config_model(*old(cfg)), part@),
{
    let p = trimmed_chars(part);
    let i = match find_char(&p, '=') {
        None => {
            return ;
        },
        Some(i) => i,
    };
    let key = lower_text(trim_text(substring(&p, 0, i).as_str()));
    let p_len = p.len();
    let val = substring(&p, i + 1, p_len);
    apply_setting(cfg, key.as_str(), trim_text(val.as_str()));
}

/// Applies one setting, given its lower-cased key and its trimmed value:
/// `server` (`host[,port]`), `database` or `initial catalog`, `uid` or
/// `user id`, `pwd` or `password`, `trustservercertificate`. Other keys change nothing.
pub fn apply_setting(cfg: &mut ConnectionConfig, key: &str, val: &str)
    ensures
        config_model(*final(cfg)) == apply_setting_spec(config_model(*old(cfg)), key@, val@),
{
    let key = chars_of(key);
    let val = chars_of(val);
    if text_eq(&key, "server") {
        match find_char(&val, ',') {
            Some(c) => {
                cfg.host = substring(&val, 0, c);
                let val_len = val.len();
                let port_text = trimmed_chars(
                    &chars_of(substring(&val, c + 1, val_len).as_str()),
                );
                match parse_port_text(&port_text) {
                    Some(port) => {
                        cfg.port = port;
                    },
                    None => {},
                }
            },
            None => {
                cfg.host = string_of(&val);
            },
        }
    } else if text_eq(&key, "database") || text_eq(&key, "initial catalog") {
        cfg.database = string_of(&val);
    } else if text_eq(&key, "uid") || text_eq(&key, "user id") {
        cfg.uid = string_of(&val);
    } else if text_eq(&key, "pwd") || text_eq(&key, "password") {
        cfg.pwd = string_of(&val);
    } else if text_eq(&key, "trustservercertificate") {
        cfg.trust_cert = eq_ignore_case(&val, "yes") || text_eq(&val, "1") || eq_ignore_case(
            &val,
            "true",
        );
    }
}

/// Reads `;`-separated `key=value` pairs. Keys are matched without regard to
/// case: `server` (`host[,port]`), `database` or `initial catalog`, `uid` or
/// `user id`, `pwd` or `password`, `trustservercertificate`; other keys are
/// ignored. Defaults: host `localhost`, port 1433, database `master`, empty
/// credentials, no certificate trust.
pub fn parse_connection_string(conn_str: &str) -> (r: ConnectionConfig)
    ensures
        config_model(r) == config_of(split_on(conn_str@, ';')),
{
    let s = chars_of(conn_str);
    let mut cfg = ConnectionConfig {
        host: String::from_str("localhost"),
        port: 1433,
        database: String::from_str("master"),
        uid: String::new(),
        pwd: String::new(),
        trust_cert: false,
    };
    let mut piece: Vec<char> = Vec::new();
    proof {
        assert(s@.subrange(0, 0) =~= Seq::<char>::empty());
        assert(split_on(Seq::<char>::empty(), ';').drop_last() =~= Seq::<Seq<char>>::empty());
    }
    for i in 0..s.len()
        invariant
            s@ == conn_str@,
            split_on(s@.subrange(0, i as int), ';').len() >= 1,
            config_model(cfg) == config_of(split_on(s@.subrange(0, i as int), ';').drop_last()),
            piece@ == split_on(s@.subrange(0, i as int), ';').last(),
    {
        let ghost pre = s@.subrange(0, i as int);
        let ghost next = s@.subrange(0, i + 1);
        assert(next.drop_last() =~= pre);
        proof {
            lemma_split_nonempty(pre, ';');
        }
        let c = s[i];
        if c == ';' {
            apply_part_exec(&mut cfg, &piece);
            piece = Vec::new();
            proof {
                let parts = split_on(pre, ';');
                assert(split_on(next, ';').drop_last() =~= parts);
                assert(parts.drop_last() =~= parts.subrange(0, parts.len() - 1));
            }
        } else {
            piece.push(c);
            proof {
                let parts = split_on(pre, ';');
                assert(split_on(next, ';').drop_last() =~= parts.drop_last());
            }
        }
    }
    apply_part_exec(&mut cfg, &piece);
    proof {
        let parts = split_on(s@, ';');
        lemma_split_nonempty(s@, ';');
        assert(s@.subrange(0, s@.len() as int) =~= s@);
        assert(parts.drop_last().push(parts.last()) =~= parts);
    }
    cfg
}

} // verus!
