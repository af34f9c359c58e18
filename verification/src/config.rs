//! The configuration of the skill manager: its settings, the known install
//! targets, and where each target keeps its skills.
use vstd::prelude::*;

use crate::error::SkillError;
use crate::number;
use crate::text;
use crate::text::CharClass;

verus! {

// ---------------------------------------------------------------------------
// Install targets
// ---------------------------------------------------------------------------

/// The install targets this tool knows, in their display order.
pub open spec fn target_names() -> Seq<Seq<char>> {
    seq!["codex"@, "qoder"@, "qoderwork"@, "kiro"@, "workbuddy"@]
}

/// One target as written by the user, trimmed and lower-cased (ASCII text
/// letter by letter, other text by the Unicode mapping).
pub open spec fn normalize_target(raw: Seq<char>) -> Seq<char> {
    let t = text::trim(raw);
    if text::is_ascii_text(t) {
        text::ascii_lowercase(t)
    } else {
        text::unicode_lowercase(t)
    }
}

/// Reads the targets of `parts` from left to right after those in `acc`:
/// empty parts are skipped, a repeated target is kept once (where it first
/// appears), and the first part that is not a known target is the error.
pub open spec fn collect_targets(parts: Seq<Seq<char>>, acc: Seq<Seq<char>>) -> Result<
    Seq<Seq<char>>,
    Seq<char>,
>
    decreases parts.len(),
{
    if parts.len() == 0 {
        Ok(acc)
    } else {
        let s = normalize_target(parts[0]);
        if s.len() == 0 {
            collect_targets(parts.drop_first(), acc)
        } else if !target_names().contains(s) {
            Err(s)
        } else if acc.contains(s) {
            collect_targets(parts.drop_first(), acc)
        } else {
            collect_targets(parts.drop_first(), acc.push(s))
        }
    }
}

/// A list of targets split at commas, spaces, tabs and newlines.
pub open spec fn split_targets(v: Seq<char>) -> Seq<Seq<char>> {
    text::split(v, CharClass::TargetSeparator)
}

/// The parts of several target lists, in order.
pub open spec fn target_parts(values: Seq<Seq<char>>) -> Seq<Seq<char>> {
    values.map_values(|v: Seq<char>| split_targets(v)).flatten()
}

/// The targets of one text (`parse_targets`).
pub open spec fn spec_parse_targets(v: Seq<char>) -> Result<Seq<Seq<char>>, Seq<char>> {
    collect_targets(split_targets(v), seq![])
}

/// The targets of several texts (`parse_targets_args`).
pub open spec fn spec_parse_targets_args(values: Seq<Seq<char>>) -> Result<
    Seq<Seq<char>>,
    Seq<char>,
> {
    collect_targets(target_parts(values), seq![])
}

/// `r` is what the spec result `s` describes: the same targets, or an
/// `InvalidTarget` error naming the same rejected target.
pub open spec fn targets_result_matches(
    r: Result<Vec<String>, SkillError>,
    s: Result<Seq<Seq<char>>, Seq<char>>,
) -> bool {
    match (r, s) {
        (Ok(out), Ok(t)) => text::string_views(out@) == t,
        (Err(SkillError::InvalidTarget(bad)), Err(e)) => bad@ == e,
        _ => false,
    }
}

/// The known targets, as character vectors.
fn all_target_chars() -> (out: Vec<Vec<char>>)
    ensures
        text::views(out@) == target_names(),
{
    let v = vec![
        text::chars_of("codex"),
        text::chars_of("qoder"),
        text::chars_of("qoderwork"),
        text::chars_of("kiro"),
        text::chars_of("workbuddy"),
    ];
    assert(text::views(v@) =~= target_names());
    v
}

/// The known install targets, in their display order.
pub fn all_targets() -> (out: Vec<String>)
    ensures
        text::string_views(out@) == target_names(),
{
    let v = vec![
        text::owned("codex"),
        text::owned("qoder"),
        text::owned("qoderwork"),
        text::owned("kiro"),
        text::owned("workbuddy"),
    ];
    assert(text::string_views(v@) =~= target_names());
    v
}

/// Whether `s` is one of the known targets.
pub fn is_known_target(s: &Vec<char>) -> (b: bool)
    ensures
        b == target_names().contains(s@),
{
    let all = all_target_chars();
    let mut k: usize = 0;
    while k < all.len()
        invariant
            k <= all.len(),
            text::views(all@) == target_names(),
            forall|j: int| 0 <= j < k ==> target_names()[j] != s@,
        decreases all.len() - k,
    {
        assert(all@[k as int]@ == target_names()[k as int]);
        if text::chars_eq(&all[k], s) {
            assert(target_names()[k as int] == s@);
            return true;
        }
        k = k + 1;
    }
    false
}

/// Whether one of the strings of `list` is `s`.
pub fn contains_text(list: &Vec<String>, s: &Vec<char>) -> (b: bool)
    ensures
        b == text::string_views(list@).contains(s@),
{
    let mut k: usize = 0;
    while k < list.len()
        invariant
            k <= list.len(),
            forall|j: int| 0 <= j < k ==> text::string_views(list@)[j] != s@,
        decreases list.len() - k,
    {
        let item = text::chars_of(list[k].as_str());
        if text::chars_eq(&item, s) {
            assert(text::string_views(list@)[k as int] == s@);
            return true;
        }
        k = k + 1;
    }
    false
}

/// The targets of already split parts (see `collect_targets`).
pub fn parse_targets_iter(parts: &Vec<Vec<char>>) -> (r: Result<Vec<String>, SkillError>)
    ensures
        targets_result_matches(r, collect_targets(text::views(parts@), seq![])),
{
    let mut out: Vec<String> = Vec::new();
    let mut i: usize = 0;
    assert(text::views(parts@).skip(0) =~= text::views(parts@));
    assert(text::string_views(out@) =~= Seq::<Seq<char>>::empty());
    while i < parts.len()
        invariant
            i <= parts.len(),
            collect_targets(text::views(parts@), seq![]) == collect_targets(
                text::views(parts@).skip(i as int),
                text::string_views(out@),
            ),
        decreases parts.len() - i,
    {
        let ghost rest = text::views(parts@).skip(i as int);
        assert(rest[0] == parts@[i as int]@);
        assert(rest.drop_first() =~= text::views(parts@).skip(i + 1));
        let t = text::trim_chars(&parts[i]);
        let ts = text::string_from(&t);
        let low = text::str_to_lowercase(ts.as_str());
        let lc = text::chars_of(low.as_str());
        if lc.len() == 0 {
            i = i + 1;
            continue ;
        }
        if !is_known_target(&lc) {
            return Err(SkillError::InvalidTarget(low));
        }
        if !contains_text(&out, &lc) {
            let ghost before = text::string_views(out@);
            out.push(low);
            assert(text::string_views(out@) =~= before.push(lc@));
        }
        i = i + 1;
    }
    assert(text::views(parts@).skip(i as int).len() == 0);
    Ok(out)
}

/// Parses a list of install targets separated by commas or white space
/// (space, tab, newline). Targets are trimmed and lower-cased; empty ones
/// are skipped and repeated ones kept once. Any other name is an error.
pub fn parse_targets(v: &str) -> (r: Result<Vec<String>, SkillError>)
    ensures
        targets_result_matches(r, spec_parse_targets(v@)),
{
    let parts = text::split_chars(&text::chars_of(v), CharClass::TargetSeparator);
    parse_targets_iter(&parts)
}

/// Like `parse_targets`, over several texts read one after the other.
pub fn parse_targets_args(values: &[String]) -> (r: Result<Vec<String>, SkillError>)
    ensures
        targets_result_matches(r, spec_parse_targets_args(text::string_views(values@))),
{
    let mut parts: Vec<Vec<char>> = Vec::new();
    let mut i: usize = 0;
    let ghost vs = text::string_views(values@);
    assert(vs.take(0).map_values(|v: Seq<char>| split_targets(v)) =~= Seq::<
        Seq<Seq<char>>,
    >::empty());
    assert(text::views(parts@) =~= Seq::<Seq<char>>::empty());
    while i < values.len()
        invariant
            i <= values.len(),
            vs == text::string_views(values@),
            text::views(parts@) == vs.take(i as int).map_values(
                |v: Seq<char>| split_targets(v),
            ).flatten(),
        decreases values.len() - i,
    {
        let pieces = text::split_chars(&text::chars_of(values[i].as_str()), CharClass::TargetSeparator);
        let ghost start = text::views(parts@);
        let mut k: usize = 0;
        while k < pieces.len()
            invariant
                k <= pieces.len(),
                text::views(parts@) == start + text::views(pieces@).take(k as int),
            decreases pieces.len() - k,
        {
            let ghost before = text::views(parts@);
            parts.push(pieces[k].clone());
            assert(text::views(parts@) =~= before.push(pieces@[k as int]@));
            assert(text::views(pieces@).take(k + 1) =~= text::views(pieces@).take(k as int).push(
                pieces@[k as int]@,
            ));
            k = k + 1;
        }
        assert(text::views(pieces@).take(k as int) =~= text::views(pieces@));
        proof {
            let f = |v: Seq<char>| split_targets(v);
            assert(vs.take(i + 1).map_values(f) =~= vs.take(i as int).map_values(f).push(
                f(vs[i as int]),
            ));
            vs.take(i as int).map_values(f).lemma_flatten_push(f(vs[i as int]));
        }
        i = i + 1;
    }
    assert(vs.take(i as int) =~= vs);
    parse_targets_iter(&parts)
}


// ---------------------------------------------------------------------------
// Settings
// ---------------------------------------------------------------------------

/// Where the skill store is and how to reach it.
pub struct Api {
    pub endpoint: String,
    /// Request timeout, in seconds.
    pub timeout: u64,
    pub token: Option<String>,
}

/// Which source answers searches and installs by default.
pub struct SourceConfig {
    pub default: String,
}

/// Where skills are installed.
pub struct Install {
    pub targets: Vec<String>,
}

/// The settings of the skill manager, and the file they are kept in.
pub struct Config {
    pub api: Api,
    pub source: SourceConfig,
    pub install: Install,
    pub path: String,
}

/// The model of a `Config`: its settings as texts.
pub struct ConfigView {
    pub endpoint: Seq<char>,
    pub timeout: u64,
    pub token: Option<Seq<char>>,
    pub default_source: Seq<char>,
    pub targets: Seq<Seq<char>>,
    pub path: Seq<char>,
}

impl View for Config {
    type V = ConfigView;

    open spec fn view(&self) -> ConfigView {
        ConfigView {
            endpoint: self.api.endpoint@,
            timeout: self.api.timeout,
            token: text::opt_view(self.api.token),
            default_source: self.source.default@,
            targets: text::string_views(self.install.targets@),
            path: self.path@,
        }
    }
}

/// The value of a setting, as `config get` prints it; `None` for a key that
/// is not a setting (and for an unset token).
pub open spec fn config_get(c: ConfigView, key: Seq<char>) -> Option<Seq<char>> {
    if key == "api.endpoint"@ {
        Some(c.endpoint)
    } else if key == "api.timeout"@ {
        Some(number::decimal(c.timeout as nat))
    } else if key == "api.token"@ {
        c.token
    } else if key == "source.default"@ {
        Some(c.default_source)
    } else if key == "install.targets"@ {
        Some(text::join(c.targets, ","@))
    } else {
        None
    }
}

/// The timeout that `config set api.timeout` stores: the number read from
/// the value, or 30 when it is not a number.
pub open spec fn timeout_of(val: Seq<char>) -> u64 {
    match number::spec_parse_u64(val) {
        Some(n) => n,
        None => 30,
    }
}

/// The settings after `config set key val`, or the rejected target when the
/// new target list is invalid. Unknown keys change nothing.
pub open spec fn config_set(c: ConfigView, key: Seq<char>, val: Seq<char>) -> Result<
    ConfigView,
    Seq<char>,
> {
    if key == "api.endpoint"@ {
        Ok(ConfigView { endpoint: val, ..c })
    } else if key == "api.timeout"@ {
        Ok(ConfigView { timeout: timeout_of(val), ..c })
    } else if key == "api.token"@ {
        Ok(ConfigView { token: Some(val), ..c })
    } else if key == "source.default"@ {
        Ok(ConfigView { default_source: val, ..c })
    } else if key == "install.targets"@ {
        match spec_parse_targets(val) {
            Ok(t) => Ok(ConfigView { targets: t, ..c }),
            Err(e) => Err(e),
        }
    } else {
        Ok(c)
    }
}

/// The source a configuration file names when its `source` section has no
/// `default`.
pub fn default_source() -> (out: String)
    ensures
        out@ == "kingdee"@,
{
    text::owned("kingdee")
}

/// Whether two texts are equal, one given as a literal.
fn is_key(k: &Vec<char>, lit: &str) -> (b: bool)
    ensures
        b == (k@ == lit@),
{
    text::chars_eq(k, &text::chars_of(lit))
}

impl Config {
    /// The default settings, kept in the file `path`: the Kingdee store with
    /// a 30 second timeout and no token, no default source named (so the
    /// store answers), and every known install target.
    pub fn new_default(path: String) -> (c: Config)
        ensures
            c@.endpoint == "https://skills.kingdee.com/api"@,
            c@.timeout == 30,
            c@.token is None,
            c@.default_source == Seq::<char>::empty(),
            c@.targets == target_names(),
            c@.path == path@,
    {
        Config {
            api: Api {
                endpoint: text::owned("https://skills.kingdee.com/api"),
                timeout: 30,
                token: None,
            },
            source: SourceConfig { default: String::new() },
            install: Install { targets: all_targets() },
            path,
        }
    }

    /// The value of a setting (`config get`).
    pub fn get(&self, key: &str) -> (r: Option<String>)
        ensures
            text::opt_view(r) == config_get(self@, key@),
    {
        let k = text::chars_of(key);
        if is_key(&k, "api.endpoint") {
            Some(self.api.endpoint.clone())
        } else if is_key(&k, "api.timeout") {
            Some(number::u64_to_decimal(self.api.timeout))
        } else if is_key(&k, "api.token") {
            match &self.api.token {
                Some(t) => Some(t.clone()),
                None => None,
            }
        } else if is_key(&k, "source.default") {
            Some(self.source.default.clone())
        } else if is_key(&k, "install.targets") {
            Some(text::join_strings(&self.install.targets, ","))
        } else {
            None
        }
    }

    /// The value of a setting, or an error naming a key that is not one
    /// (`config get` on the command line).
    pub fn get_required(&self, key: &str) -> (r: Result<String, SkillError>)
        ensures
            match config_get(self@, key@) {
                Some(v) => r matches Ok(s) && s@ == v,
                None => r matches Err(SkillError::UnknownConfigKey(k)) && k@ == key@,
            },
    {
        match self.get(key) {
            Some(v) => Ok(v),
            None => Err(SkillError::UnknownConfigKey(text::owned(key))),
        }
    }

    /// Whether target `t` is selected.
    pub fn is_selected(&self, t: &str) -> (b: bool)
        ensures
            b == self@.targets.contains(t@),
    {
        contains_text(&self.install.targets, &text::chars_of(t))
    }

    /// Changes a setting (`config set`). Unknown keys are ignored; a target
    /// list with an unknown target is refused and changes nothing.
    pub fn set(&mut self, key: &str, val: &str) -> (r: Result<(), SkillError>)
        ensures
            match config_set(old(self)@, key@, val@) {
                Ok(c) => r is Ok && final(self)@ == c,
                Err(bad) => r matches Err(SkillError::InvalidTarget(t)) && t@ == bad
                    && final(self)@ == old(self)@,
            },
    {
        let k = text::chars_of(key);
        if is_key(&k, "api.endpoint") {
            self.api.endpoint = text::owned(val);
        } else if is_key(&k, "api.timeout") {
            self.api.timeout = match number::parse_u64(&text::chars_of(val)) {
                Some(n) => n,
                None => 30,
            };
        } else if is_key(&k, "api.token") {
            self.api.token = Some(text::owned(val));
        } else if is_key(&k, "source.default") {
            self.source.default = text::owned(val);
        } else if is_key(&k, "install.targets") {
            match parse_targets(val) {
                Ok(t) => {
                    self.install.targets = t;
                },
                Err(e) => {
                    return Err(e);
                },
            }
        }
        Ok(())
    }

    /// The token to use: the one given on the command line, else the one in
    /// the environment, else the configured one, else the built-in one.
    pub fn resolve_token(
        &self,
        cli_token: Option<String>,
        env_token: Option<String>,
        builtin: String,
    ) -> (out: String)
        ensures
            out@ == (match (cli_token, env_token, self.api.token) {
                (Some(t), _, _) => t@,
                (None, Some(t), _) => t@,
                (None, None, Some(t)) => t@,
                (None, None, None) => builtin@,
            }),
    {
        match cli_token {
            Some(t) => t,
            None => match env_token {
                Some(t) => t,
                None => match &self.api.token {
                    Some(t) => t.clone(),
                    None => builtin,
                },
            },
        }
    }

    /// Adds targets that are not yet selected, in order; returns those added.
    pub fn add_targets(&mut self, targets: Vec<String>) -> (added: Vec<String>)
        ensures
            final(self)@ == (ConfigView {
                targets: final(self)@.targets,
                ..old(self)@
            }),
            final(self)@.targets == old(self)@.targets + text::string_views(added@),
            text::string_views(added@) == new_targets(
                old(self)@.targets,
                text::string_views(targets@),
            ),
    {
        let mut added: Vec<String> = Vec::new();
        let mut i: usize = 0;
        let ghost start = self@;
        let ghost ts = text::string_views(targets@);
        assert(ts.take(0) =~= Seq::<Seq<char>>::empty());
        assert(text::string_views(added@) =~= Seq::<Seq<char>>::empty());
        assert(start.targets + Seq::<Seq<char>>::empty() =~= start.targets);
        while i < targets.len()
            invariant
                i <= targets.len(),
                ts == text::string_views(targets@),
                self@ == (ConfigView { targets: self@.targets, ..start }),
                self@.targets == start.targets + text::string_views(added@),
                text::string_views(added@) == new_targets(start.targets, ts.take(i as int)),
            decreases targets.len() - i,
        {
            let t = &targets[i];
            let tc = text::chars_of(t.as_str());
            let present = contains_text(&self.install.targets, &tc);
            assert(ts.take(i + 1).drop_last() =~= ts.take(i as int));
            assert(ts.take(i + 1).last() == t@);
            proof {
                lemma_contains_concat(start.targets, text::string_views(added@), t@);
            }
            if !present {
                let ghost before = text::string_views(added@);
                let ghost before_t = text::string_views(self.install.targets@);
                self.install.targets.push(t.clone());
                added.push(t.clone());
                assert(text::string_views(added@) =~= before.push(t@));
                assert(text::string_views(self.install.targets@) =~= before_t.push(t@));
                assert(self@.targets =~= start.targets + text::string_views(added@));
            }
            i = i + 1;
        }
        assert(ts.take(i as int) =~= ts);
        added
    }

    /// Removes the given targets; returns the removed ones, in their old order.
    pub fn remove_targets(&mut self, targets: &Vec<String>) -> (removed: Vec<String>)
        ensures
            final(self)@ == (ConfigView {
                targets: final(self)@.targets,
                ..old(self)@
            }),
            final(self)@.targets == without_targets(
                old(self)@.targets,
                text::string_views(targets@),
            ),
            text::string_views(removed@) == among_targets(
                old(self)@.targets,
                text::string_views(targets@),
            ),
    {
        let mut kept: Vec<String> = Vec::new();
        let mut removed: Vec<String> = Vec::new();
        let ghost before = self@.targets;
        let ghost drop = text::string_views(targets@);
        let ghost keep_f = |t: Seq<char>| !drop.contains(t);
        let ghost drop_f = |t: Seq<char>| drop.contains(t);
        let mut i: usize = 0;
        assert(before.take(0) =~= Seq::<Seq<char>>::empty());
        assert(text::string_views(kept@) =~= Seq::<Seq<char>>::empty());
        assert(text::string_views(removed@) =~= Seq::<Seq<char>>::empty());
        while i < self.install.targets.len()
            invariant
                i <= self.install.targets.len(),
                before == text::string_views(self.install.targets@),
                drop == text::string_views(targets@),
                keep_f == (|t: Seq<char>| !drop.contains(t)),
                drop_f == (|t: Seq<char>| drop.contains(t)),
                text::string_views(kept@) == before.take(i as int).filter(keep_f),
                text::string_views(removed@) == before.take(i as int).filter(drop_f),
            decreases self.install.targets.len() - i,
        {
            let t = &self.install.targets[i];
            let tc = text::chars_of(t.as_str());
            let hit = contains_text(targets, &tc);
            proof {
                assert(before.take(i + 1) =~= before.take(i as int).push(t@));
                before.take(i as int).lemma_filter_push(t@, keep_f);
                before.take(i as int).lemma_filter_push(t@, drop_f);
            }
            if hit {
                let ghost b = text::string_views(removed@);
                removed.push(t.clone());
                assert(text::string_views(removed@) =~= b.push(t@));
            } else {
                let ghost b = text::string_views(kept@);
                kept.push(t.clone());
                assert(text::string_views(kept@) =~= b.push(t@));
            }
            i = i + 1;
        }
        assert(before.take(i as int) =~= before);
        self.install.targets = kept;
        removed
    }
}

proof fn lemma_contains_concat(a: Seq<Seq<char>>, b: Seq<Seq<char>>, x: Seq<char>)
    ensures
        (a + b).contains(x) <==> (a.contains(x) || b.contains(x)),
{
    if (a + b).contains(x) {
        let k = choose|k: int| 0 <= k < (a + b).len() && (a + b)[k] == x;
        if k >= a.len() {
            assert(b[k - a.len()] == x);
        }
    }
    if a.contains(x) {
        let k = choose|k: int| 0 <= k < a.len() && a[k] == x;
        assert((a + b)[k] == x);
    }
    if b.contains(x) {
        let k = choose|k: int| 0 <= k < b.len() && b[k] == x;
        assert((a + b)[k + a.len()] == x);
    }
}

/// The targets of `current` that are not among `names`, in order.
pub open spec fn without_targets(current: Seq<Seq<char>>, names: Seq<Seq<char>>) -> Seq<
    Seq<char>,
> {
    current.filter(|t: Seq<char>| !names.contains(t))
}

/// The targets of `current` that are among `names`, in order.
pub open spec fn among_targets(current: Seq<Seq<char>>, names: Seq<Seq<char>>) -> Seq<Seq<char>> {
    current.filter(|t: Seq<char>| names.contains(t))
}

/// The targets of `ts` that are not in `current`, each once, in order.
pub open spec fn new_targets(current: Seq<Seq<char>>, ts: Seq<Seq<char>>) -> Seq<Seq<char>>
    decreases ts.len(),
{
    if ts.len() == 0 {
        seq![]
    } else {
        let prev = new_targets(current, ts.drop_last());
        if current.contains(ts.last()) || prev.contains(ts.last()) {
            prev
        } else {
            prev.push(ts.last())
        }
    }
}

/// Whether a secret is set, as `config list` shows it: `<set>` when it has
/// text other than white space, and nothing otherwise.
pub fn secret_status(value: Option<&str>) -> (out: &'static str)
    ensures
        out@ == (match value {
            Some(v) if text::trim(v@).len() > 0 => "<set>"@,
            _ => ""@,
        }),
{
    match value {
        Some(v) => {
            let t = text::trim_chars(&text::chars_of(v));
            if t.len() > 0 {
                "<set>"
            } else {
                ""
            }
        },
        None => "",
    }
}

// ---------------------------------------------------------------------------
// Paths
// ---------------------------------------------------------------------------

/// `Path::join` on Unix paths: an absolute `rel` replaces `base`; otherwise
/// `rel` is appended after a `/` (none is added when `base` is empty or
/// already ends with one).
pub open spec fn join_path(base: Seq<char>, rel: Seq<char>) -> Seq<char> {
    if rel.len() > 0 && rel[0] == '/' {
        rel
    } else if base.len() == 0 || base.last() == '/' {
        base + rel
    } else {
        base + "/"@ + rel
    }
}

/// `base` joined with `rel`.
pub fn join_path_exec(base: &str, rel: &str) -> (out: String)
    ensures
        out@ == join_path(base@, rel@),
{
    let b = text::chars_of(base);
    let r = text::chars_of(rel);
    if r.len() > 0 && r[0] == '/' {
        return text::owned(rel);
    }
    let mut out = text::owned(base);
    if !(b.len() == 0 || b[b.len() - 1] == '/') {
        text::string_push_str(&mut out, "/");
    }
    text::string_push_str(&mut out, rel);
    out
}

/// The configuration file: the one given, else `~/.config/skillhub/config.yaml`.
pub fn config_path(custom: Option<&str>, home: &str) -> (out: String)
    ensures
        out@ == (match custom {
            Some(c) => c@,
            None => join_path(home@, ".config/skillhub/config.yaml"@),
        }),
{
    match custom {
        Some(c) => text::owned(c),
        None => join_path_exec(home, ".config/skillhub/config.yaml"),
    }
}

/// The directory whose presence shows that a target's tool is installed.
pub open spec fn spec_install_check_path(home: Seq<char>, t: Seq<char>) -> Seq<char> {
    if t == "codex"@ {
        join_path(home, ".codex/skills"@)
    } else if t == "workbuddy"@ {
        join_path(home, ".workbuddy/skills"@)
    } else if t == "qoder"@ {
        join_path(home, ".qoder"@)
    } else if t == "qoderwork"@ {
        join_path(home, ".qoderwork"@)
    } else if t == "kiro"@ {
        join_path(home, ".kiro"@)
    } else {
        home
    }
}

/// The directory whose presence shows that target `t`'s tool is installed.
pub fn install_check_path(home: &str, t: &str) -> (out: String)
    ensures
        out@ == spec_install_check_path(home@, t@),
{
    let k = text::chars_of(t);
    if is_key(&k, "codex") {
        join_path_exec(home, ".codex/skills")
    } else if is_key(&k, "workbuddy") {
        join_path_exec(home, ".workbuddy/skills")
    } else if is_key(&k, "qoder") {
        join_path_exec(home, ".qoder")
    } else if is_key(&k, "qoderwork") {
        join_path_exec(home, ".qoderwork")
    } else if is_key(&k, "kiro") {
        join_path_exec(home, ".kiro")
    } else {
        text::owned(home)
    }
}

/// The directory a target installs skills into: `~/.<target>/skills`.
pub open spec fn spec_target_skill_dir(home: Seq<char>, t: Seq<char>) -> Seq<char> {
    if t == "codex"@ {
        join_path(home, ".codex/skills"@)
    } else {
        join_path(home, "."@ + t + "/skills"@)
    }
}

/// The directory target `t` installs skills into.
pub fn target_skill_dir(home: &str, t: &str) -> (out: String)
    ensures
        out@ == spec_target_skill_dir(home@, t@),
{
    let k = text::chars_of(t);
    if is_key(&k, "codex") {
        join_path_exec(home, ".codex/skills")
    } else {
        let mut rel = text::owned(".");
        text::string_push_str(&mut rel, t);
        text::string_push_str(&mut rel, "/skills");
        join_path_exec(home, rel.as_str())
    }
}

// ---------------------------------------------------------------------------
// Laws
// ---------------------------------------------------------------------------

/// After `config set key val` succeeds, `config get key` gives back `val`
/// for the text settings, the stored number for the timeout, and the parsed
/// list joined with `,` for the targets; every other setting reads as
/// before.
pub proof fn lemma_get_after_set(c: ConfigView, key: Seq<char>, other: Seq<char>, val: Seq<char>)
    requires
        config_set(c, key, val) is Ok,
        other != key,
    ensures
        ({
            let c2 = config_set(c, key, val)->Ok_0;
            &&& key == "api.endpoint"@ ==> config_get(c2, key) == Some(val)
            &&& key == "api.token"@ ==> config_get(c2, key) == Some(val)
            &&& key == "source.default"@ ==> config_get(c2, key) == Some(val)
            &&& key == "api.timeout"@ ==> config_get(c2, key) == Some(
                number::decimal(timeout_of(val) as nat),
            )
            &&& key == "install.targets"@ ==> config_get(c2, key) == Some(
                text::join(spec_parse_targets(val)->Ok_0, ","@),
            )
            &&& config_get(c2, other) == config_get(c, other)
        }),
{
    reveal_strlit("api.endpoint");
    reveal_strlit("api.timeout");
    reveal_strlit("api.token");
    reveal_strlit("source.default");
    reveal_strlit("install.targets");
    assert("api.endpoint"@.len() == 12);
    assert("api.timeout"@.len() == 11);
    assert("api.token"@.len() == 9);
    assert("source.default"@.len() == 14);
    assert("install.targets"@.len() == 15);
    let c2 = config_set(c, key, val)->Ok_0;
    assert(key == "api.endpoint"@ ==> config_get(c2, key) == Some(val));
    assert(key == "api.token"@ ==> config_get(c2, key) == Some(val));
    assert(key == "source.default"@ ==> config_get(c2, key) == Some(val));
    assert(key == "api.timeout"@ ==> config_get(c2, key) == Some(number::decimal(timeout_of(val) as nat)));
    assert(key == "install.targets"@ ==> config_get(c2, key) == Some(text::join(spec_parse_targets(val)->Ok_0, ","@)));
    assert(config_get(c2, other) == config_get(c, other));
}

/// Setting the timeout to the decimal text of a number and reading it back
/// gives the same text.
pub proof fn lemma_timeout_round_trip(c: ConfigView, n: u64)
    ensures
        config_set(c, "api.timeout"@, number::decimal(n as nat)) is Ok,
        config_get(
            config_set(c, "api.timeout"@, number::decimal(n as nat))->Ok_0,
            "api.timeout"@,
        ) == Some(number::decimal(n as nat)),
{
    reveal_strlit("api.endpoint");
    reveal_strlit("api.timeout");
    number::lemma_parse_decimal(n);
}

/// Setting a key that is not a setting changes nothing.
pub proof fn lemma_set_unknown_key(c: ConfigView, key: Seq<char>, val: Seq<char>)
    requires
        config_get(c, key) is None,
        key != "api.token"@,
    ensures
        config_set(c, key, val) == Ok::<ConfigView, Seq<char>>(c),
{
}

/// Every character of a known target is a lower-case ASCII letter.
proof fn lemma_target_chars(k: int)
    requires
        0 <= k < 5,
    ensures
        target_names()[k].len() > 0,
        forall|i: int|
            0 <= i < target_names()[k].len() ==> 97 <= (#[trigger] target_names()[k][i] as u32)
                <= 122,
{
    reveal_strlit("codex");
    reveal_strlit("qoder");
    reveal_strlit("qoderwork");
    reveal_strlit("kiro");
    reveal_strlit("workbuddy");
    let t = target_names()[k];
    assert forall|i: int| 0 <= i < t.len() implies 97 <= (#[trigger] t[i] as u32) <= 122 by {
        if k == 0 {
            assert(t == seq!['c', 'o', 'd', 'e', 'x']);
        } else if k == 1 {
            assert(t == seq!['q', 'o', 'd', 'e', 'r']);
        } else if k == 2 {
            assert(t == seq!['q', 'o', 'd', 'e', 'r', 'w', 'o', 'r', 'k']);
        } else if k == 3 {
            assert(t == seq!['k', 'i', 'r', 'o']);
        } else {
            assert(t == seq!['w', 'o', 'r', 'k', 'b', 'u', 'd', 'd', 'y']);
        }
    }
}

/// A known target is its own normal form, and holds no separator.
proof fn lemma_known_target_normal(t: Seq<char>)
    requires
        target_names().contains(t),
    ensures
        normalize_target(t) == t,
        t.len() > 0,
        forall|i: int| 0 <= i < t.len() ==> !text::in_class(CharClass::TargetSeparator, #[trigger] t[i]),
{
    let k = choose|k: int| 0 <= k < target_names().len() && target_names()[k] == t;
    lemma_target_chars(k);
    assert(!text::is_whitespace(t[0]));
    assert(!text::is_whitespace(t.last()));
    assert(text::strip_start(t, CharClass::Whitespace) == t);
    assert(text::strip_end(t, CharClass::Whitespace) == t);
    assert(text::trim(t) == t);
    assert(text::ascii_lowercase(t) =~= t);
    assert forall|i: int| 0 <= i < t.len() implies !text::in_class(
        CharClass::TargetSeparator,
        #[trigger] t[i],
    ) by {
        assert(97 <= (t[i] as u32) <= 122);
    }
}

/// Parsed targets are known targets, each once, with the targets already
/// collected kept in front.
proof fn lemma_collect_targets_valid(parts: Seq<Seq<char>>, acc: Seq<Seq<char>>)
    requires
        forall|i: int| 0 <= i < acc.len() ==> target_names().contains(#[trigger] acc[i]),
        acc.no_duplicates(),
    ensures
        collect_targets(parts, acc) matches Ok(r) ==> r.no_duplicates() && (forall|i: int|
            0 <= i < r.len() ==> target_names().contains(#[trigger] r[i])) && acc.len() <= r.len()
            && r.take(acc.len() as int) == acc,
    decreases parts.len(),
{
    if parts.len() > 0 {
        let s = normalize_target(parts[0]);
        if s.len() == 0 || acc.contains(s) {
            lemma_collect_targets_valid(parts.drop_first(), acc);
        } else if target_names().contains(s) {
            let acc2 = acc.push(s);
            assert forall|i: int| 0 <= i < acc2.len() implies target_names().contains(
                #[trigger] acc2[i],
            ) by {
                if i < acc.len() {
                    assert(acc2[i] == acc[i]);
                }
            }
            assert(acc2.no_duplicates()) by {
                assert forall|i: int, j: int|
                    0 <= i < acc2.len() && 0 <= j < acc2.len() && i != j implies acc2[i]
                    != acc2[j] by {
                    if i < acc.len() && j < acc.len() {
                    } else if i == acc.len() {
                        assert(acc2[j] == acc[j]);
                    } else {
                        assert(acc2[i] == acc[i]);
                    }
                }
            }
            lemma_collect_targets_valid(parts.drop_first(), acc2);
            match collect_targets(parts, acc) {
                Ok(r) => {
                    assert forall|i: int| 0 <= i < acc.len() implies #[trigger] r.take(
                        acc.len() as int,
                    )[i] == acc[i] by {
                        assert(r.take(acc2.len() as int)[i] == acc2[i]);
                    }
                    assert(r.take(acc.len() as int) =~= acc);
                },
                Err(_) => {},
            }
        }
    }
}

/// Whatever `config set install.targets` accepts is a list of known
/// targets, each named once.
pub proof fn lemma_parsed_targets_valid(v: Seq<char>)
    ensures
        spec_parse_targets(v) matches Ok(r) ==> r.no_duplicates() && forall|i: int|
            0 <= i < r.len() ==> target_names().contains(#[trigger] r[i]),
{
    lemma_collect_targets_valid(split_targets(v), seq![]);
}

/// Reading back a list of distinct known targets joined with `,` (what
/// `config get install.targets` prints) gives the same list.
pub proof fn lemma_targets_round_trip(ts: Seq<Seq<char>>)
    requires
        ts.no_duplicates(),
        forall|i: int| 0 <= i < ts.len() ==> target_names().contains(#[trigger] ts[i]),
    ensures
        spec_parse_targets(text::join(ts, ","@)) == Ok::<Seq<Seq<char>>, Seq<char>>(ts),
{
    reveal_strlit(",");
    assert(","@ =~= seq![',']);
    if ts.len() == 0 {
        let e = Seq::<char>::empty();
        assert(text::join(ts, ","@) == e);
        text::lemma_first_in_none(e, CharClass::TargetSeparator);
        assert(split_targets(e) =~= seq![e]);
        assert(normalize_target(e) =~= e) by {
            assert(text::trim(e) =~= e);
            assert(text::ascii_lowercase(e) =~= e);
        }
        assert(collect_targets(seq![e].drop_first(), seq![]) == Ok::<
            Seq<Seq<char>>,
            Seq<char>,
        >(seq![]));
        assert(collect_targets(seq![e], seq![]) == Ok::<Seq<Seq<char>>, Seq<char>>(seq![]));
        assert(ts =~= seq![]);
    } else {
        lemma_split_join_targets(ts);
        lemma_collect_known(ts, 0);
        assert(ts.take(0) =~= Seq::<Seq<char>>::empty());
        assert(ts.skip(0) =~= ts);
        assert(text::join(ts, ","@) == text::join(ts, seq![',']));
        assert(split_targets(text::join(ts, ","@)) == ts);
        assert(collect_targets(ts, seq![]) == Ok::<Seq<Seq<char>>, Seq<char>>(ts));
    }
}

/// Known targets joined with `,` split back into themselves.
proof fn lemma_split_join_targets(ts: Seq<Seq<char>>)
    requires
        ts.len() > 0,
        forall|i: int| 0 <= i < ts.len() ==> target_names().contains(#[trigger] ts[i]),
    ensures
        split_targets(text::join(ts, seq![','])) == ts,
    decreases ts.len(),
{
    let cls = CharClass::TargetSeparator;
    if ts.len() == 1 {
        lemma_known_target_normal(ts[0]);
        text::lemma_first_in_none(ts[0], cls);
        assert(split_targets(ts[0]) =~= seq![ts[0]]);
        assert(ts =~= seq![ts[0]]);
    } else {
        // join(ts) = ts[0] + "," + join(ts.drop_first())
        let rest = ts.drop_first();
        assert forall|i: int| 0 <= i < rest.len() implies target_names().contains(#[trigger] rest[i]) by {
            assert(rest[i] == ts[i + 1]);
        }
        lemma_split_join_targets(rest);
        assert(ts =~= seq![ts[0]] + rest);
        text::lemma_join_cons(ts[0], rest, seq![',']);
        lemma_known_target_normal(ts[0]);
        text::lemma_split_cons_class(ts[0], ',', text::join(rest, seq![',']), cls);
    }
}

/// Collecting distinct known targets, after those already collected,
/// keeps them all in order.
proof fn lemma_collect_known(ts: Seq<Seq<char>>, i: int)
    requires
        0 <= i <= ts.len(),
        ts.no_duplicates(),
        forall|j: int| 0 <= j < ts.len() ==> target_names().contains(#[trigger] ts[j]),
    ensures
        collect_targets(ts.skip(i), ts.take(i)) == Ok::<Seq<Seq<char>>, Seq<char>>(ts),
    decreases ts.len() - i,
{
    if i == ts.len() {
        assert(ts.skip(i).len() == 0);
        assert(ts.take(i) =~= ts);
    } else {
        let t = ts[i];
        lemma_known_target_normal(t);
        assert(ts.skip(i)[0] == t);
        assert(ts.skip(i).drop_first() =~= ts.skip(i + 1));
        assert(!ts.take(i).contains(t)) by {
            if ts.take(i).contains(t) {
                let j = choose|j: int| 0 <= j < ts.take(i).len() && ts.take(i)[j] == t;
                assert(ts[j] == ts[i]);
            }
        }
        assert(ts.take(i).push(t) =~= ts.take(i + 1));
        lemma_collect_known(ts, i + 1);
    }
}


/// After `config targets add`, every named target is selected, and a
/// selection without repeats stays without repeats.
pub proof fn lemma_add_targets_selects(current: Seq<Seq<char>>, ts: Seq<Seq<char>>)
    ensures
        forall|i: int|
            0 <= i < ts.len() ==> (current + new_targets(current, ts)).contains(#[trigger] ts[i]),
        current.no_duplicates() ==> (current + new_targets(current, ts)).no_duplicates(),
    decreases ts.len(),
{
    if ts.len() > 0 {
        let init = ts.drop_last();
        let x = ts.last();
        let prev = new_targets(current, init);
        lemma_add_targets_selects(current, init);
        lemma_contains_concat(current, prev, x);
        let all = current + new_targets(current, ts);
        if current.contains(x) || prev.contains(x) {
            assert forall|i: int| 0 <= i < ts.len() implies all.contains(#[trigger] ts[i]) by {
                if i < ts.len() - 1 {
                    assert(ts[i] == init[i]);
                }
            }
        } else {
            assert(all =~= (current + prev).push(x));
            assert forall|i: int| 0 <= i < ts.len() implies all.contains(#[trigger] ts[i]) by {
                if i < ts.len() - 1 {
                    assert(ts[i] == init[i]);
                    let k = choose|k: int|
                        0 <= k < (current + prev).len() && (current + prev)[k] == init[i];
                    assert(all[k] == ts[i]);
                } else {
                    assert(all[all.len() - 1] == x);
                }
            }
            if current.no_duplicates() {
                assert forall|a: int, b: int|
                    0 <= a < all.len() && 0 <= b < all.len() && a != b implies all[a]
                    != all[b] by {
                    if a < all.len() - 1 && b < all.len() - 1 {
                        assert(all[a] == (current + prev)[a]);
                        assert(all[b] == (current + prev)[b]);
                    } else if a == all.len() - 1 {
                        assert(all[b] == (current + prev)[b]);
                    } else {
                        assert(all[a] == (current + prev)[a]);
                    }
                }
            }
        }
    }
}

/// After `config targets remove`, none of the named targets is selected,
/// and every other target that was selected still is.
pub proof fn lemma_remove_targets_deselects(current: Seq<Seq<char>>, names: Seq<Seq<char>>)
    ensures
        forall|t: Seq<char>|
            names.contains(t) ==> !(#[trigger] without_targets(current, names).contains(t)),
        forall|t: Seq<char>|
            current.contains(t) && !names.contains(t) ==> (#[trigger] without_targets(
                current,
                names,
            ).contains(t)),
{
    broadcast use vstd::seq_lib::group_filter_ensures;

    let f = |x: Seq<char>| !names.contains(x);
    let kept = without_targets(current, names);
    assert(kept == current.filter(f));
    assert forall|t: Seq<char>| names.contains(t) implies !kept.contains(t) by {
        if kept.contains(t) {
            let k = choose|k: int| 0 <= k < kept.len() && kept[k] == t;
            assert(f(kept[k]));
        }
    }
    assert forall|t: Seq<char>| current.contains(t) && !names.contains(t) implies kept.contains(
        t,
    ) by {
        let k = choose|k: int| 0 <= k < current.len() && current[k] == t;
        assert(f(current[k]));
    }
}

/// The selected targets are known targets, each named once.
pub open spec fn targets_valid(ts: Seq<Seq<char>>) -> bool {
    &&& ts.no_duplicates()
    &&& forall|i: int| 0 <= i < ts.len() ==> target_names().contains(#[trigger] ts[i])
}

/// The default selection, all the known targets, is valid.
pub proof fn lemma_default_targets_valid()
    ensures
        targets_valid(target_names()),
{
    reveal_strlit("codex");
    reveal_strlit("qoder");
    reveal_strlit("qoderwork");
    reveal_strlit("kiro");
    reveal_strlit("workbuddy");
    let ns = target_names();
    assert forall|i: int| 0 <= i < ns.len() implies target_names().contains(#[trigger] ns[i]) by {
    }
    assert forall|i: int, j: int| 0 <= i < ns.len() && 0 <= j < ns.len() && i != j implies ns[i]
        != ns[j] by {
        assert(ns[0][0] != ns[1][0]);
        assert(ns[0][0] != ns[2][0]);
        assert(ns[0][0] != ns[3][0]);
        assert(ns[0][0] != ns[4][0]);
        assert(ns[1].len() != ns[2].len());
        assert(ns[1][0] != ns[3][0]);
        assert(ns[1][0] != ns[4][0]);
        assert(ns[2][0] != ns[3][0]);
        assert(ns[2][0] != ns[4][0]);
        assert(ns[3][0] != ns[4][0]);
    }
}

/// Every accepted `config set` keeps a valid selection valid.
pub proof fn lemma_set_keeps_targets_valid(c: ConfigView, key: Seq<char>, val: Seq<char>)
    requires
        targets_valid(c.targets),
        config_set(c, key, val) is Ok,
    ensures
        targets_valid((config_set(c, key, val)->Ok_0).targets),
{
    lemma_parsed_targets_valid(val);
}

/// The targets `new_targets` picks come from those named.
proof fn lemma_new_targets_from(current: Seq<Seq<char>>, ts: Seq<Seq<char>>)
    ensures
        forall|i: int|
            0 <= i < new_targets(current, ts).len() ==> ts.contains(
                #[trigger] new_targets(current, ts)[i],
            ),
    decreases ts.len(),
{
    if ts.len() > 0 {
        let init = ts.drop_last();
        lemma_new_targets_from(current, init);
        let prev = new_targets(current, init);
        let out = new_targets(current, ts);
        assert forall|i: int| 0 <= i < out.len() implies ts.contains(#[trigger] out[i]) by {
            if i < prev.len() {
                assert(out[i] == prev[i]);
                let k = choose|k: int| 0 <= k < init.len() && init[k] == prev[i];
                assert(ts[k] == init[k]);
            } else {
                assert(out[i] == ts[ts.len() - 1]);
            }
        }
    }
}

/// Adding known targets keeps a valid selection valid.
pub proof fn lemma_add_keeps_targets_valid(current: Seq<Seq<char>>, ts: Seq<Seq<char>>)
    requires
        targets_valid(current),
        forall|i: int| 0 <= i < ts.len() ==> target_names().contains(#[trigger] ts[i]),
    ensures
        targets_valid(current + new_targets(current, ts)),
{
    lemma_add_targets_selects(current, ts);
    lemma_new_targets_from(current, ts);
    let n = new_targets(current, ts);
    let all = current + n;
    assert forall|i: int| 0 <= i < all.len() implies target_names().contains(#[trigger] all[i]) by {
        if i >= current.len() {
            assert(all[i] == n[i - current.len()]);
            assert(ts.contains(n[i - current.len()]));
        }
    }
}

/// Removing targets keeps a valid selection valid.
pub proof fn lemma_remove_keeps_targets_valid(current: Seq<Seq<char>>, names: Seq<Seq<char>>)
    requires
        targets_valid(current),
    ensures
        targets_valid(without_targets(current, names)),
    decreases current.len(),
{
    broadcast use vstd::seq_lib::group_filter_ensures;

    let f = |x: Seq<char>| !names.contains(x);
    let kept = without_targets(current, names);
    assert(kept == current.filter(f));
    assert forall|i: int| 0 <= i < kept.len() implies target_names().contains(#[trigger] kept[i]) by {
        assert(kept.contains(kept[i]));
        current.lemma_filter_contains_rev(f, kept[i]);
    }
    // The kept targets keep their order and repeat none.
    if current.len() > 0 {
        let init = current.drop_last();
        assert(targets_valid(init)) by {
            assert forall|i: int| 0 <= i < init.len() implies target_names().contains(
                #[trigger] init[i],
            ) by {
                assert(init[i] == current[i]);
            }
            assert forall|i: int, j: int|
                0 <= i < init.len() && 0 <= j < init.len() && i != j implies init[i]
                != init[j] by {
                assert(init[i] == current[i]);
                assert(init[j] == current[j]);
            }
        }
        lemma_remove_keeps_targets_valid(init, names);
        let x = current.last();
        let prev = without_targets(init, names);
        assert(prev == init.filter(f));
        assert(current.filter(f) == if f(x) {
            init.filter(f).push(x)
        } else {
            init.filter(f)
        }) by {
            assert(current =~= init.push(x));
            init.lemma_filter_push(x, f);
        }
        if f(x) {
            assert(!prev.contains(x)) by {
                if prev.contains(x) {
                    init.lemma_filter_contains_rev(f, x);
                    let k = choose|k: int| 0 <= k < init.len() && init[k] == x;
                    assert(current[k] == current[current.len() - 1]);
                }
            }
            assert forall|i: int, j: int|
                0 <= i < kept.len() && 0 <= j < kept.len() && i != j implies kept[i]
                != kept[j] by {
                if i < prev.len() && j < prev.len() {
                    assert(kept[i] == prev[i]);
                    assert(kept[j] == prev[j]);
                } else if i < prev.len() {
                    assert(kept[i] == prev[i]);
                } else if j < prev.len() {
                    assert(kept[j] == prev[j]);
                }
            }
        }
    }
}

/// The pieces of several values are the pieces of the values joined with
/// `,`.
proof fn lemma_parts_join(vs: Seq<Seq<char>>)
    requires
        vs.len() > 0,
    ensures
        split_targets(text::join(vs, seq![','])) == target_parts(vs),
    decreases vs.len(),
{
    let f = |v: Seq<char>| split_targets(v);
    if vs.len() == 1 {
        assert(vs.map_values(f) =~= seq![split_targets(vs[0])]);
        seq![split_targets(vs[0])].lemma_flatten_singleton();
    } else {
        let init = vs.drop_last();
        lemma_parts_join(init);
        text::lemma_split_concat(
            text::join(init, seq![',']),
            ',',
            vs.last(),
            CharClass::TargetSeparator,
        );
        assert(vs.map_values(f) =~= init.map_values(f).push(split_targets(vs.last())));
        init.map_values(f).lemma_flatten_push(split_targets(vs.last()));
    }
}

/// Parsing several target values gives what parsing them joined with `,`
/// gives: the same targets, or the same rejected target.
pub proof fn lemma_parse_args_as_joined(vs: Seq<Seq<char>>)
    ensures
        spec_parse_targets_args(vs) == spec_parse_targets(text::join(vs, ","@)),
{
    reveal_strlit(",");
    assert(","@ =~= seq![',']);
    if vs.len() == 0 {
        let e = Seq::<char>::empty();
        assert(text::join(vs, ","@) == e);
        text::lemma_first_in_none(e, CharClass::TargetSeparator);
        assert(split_targets(e) =~= seq![e]);
        assert(normalize_target(e) =~= e) by {
            assert(text::trim(e) =~= e);
            assert(text::ascii_lowercase(e) =~= e);
        }
        assert(seq![e].drop_first() =~= Seq::<Seq<char>>::empty());
        assert(vs.map_values(|v: Seq<char>| split_targets(v)) =~= Seq::<Seq<Seq<char>>>::empty());
        assert(target_parts(vs) =~= Seq::<Seq<char>>::empty());
    } else {
        lemma_parts_join(vs);
        assert(text::join(vs, ","@) == text::join(vs, seq![',']));
    }
}

/// Every target installs its skills into `~/.<target>/skills`.
pub proof fn lemma_target_skill_dir_layout(home: Seq<char>, t: Seq<char>)
    ensures
        spec_target_skill_dir(home, t) == join_path(home, "."@ + t + "/skills"@),
{
    reveal_strlit("codex");
    reveal_strlit(".codex/skills");
    reveal_strlit(".");
    reveal_strlit("/skills");
    if t == "codex"@ {
        assert(".codex/skills"@ =~= "."@ + t + "/skills"@);
    }
}

} // verus!
