//! Configuration of the adapter.

use vstd::prelude::*;
use vstd::string::*;

use crate::text::{
    law_decimal_number_is_read, law_trimmed_ends_are_not_white_space,
    law_trimmed_is_empty_iff_all_white_space, lemma_split_not_empty, nat_text, opt_view,
    parse_unsigned, split_at_char, split_on, str_eq, trim, trimmed, unsigned, views, white_space,
};

verus! {

/// The lower-case form of a text.
pub uninterp spec fn lowercase(s: Seq<char>) -> Seq<char>;

/// [`str::to_lowercase`] maps a text to its lower-case form, which depends on the text alone.
pub assume_specification[ str::to_lowercase ](s: &str) -> (r: String)
    ensures
        r@ == lowercase(s@),
;

/// How events reach the adapter.
#[derive(Debug, Clone, Copy, PartialEq, Eq, Structural)]
pub enum ConnectionMode {
    Websocket,
    Webhook,
}

impl ConnectionMode {
    /// The mode that a name in lower case stands for.
    pub open spec fn named(name: Seq<char>) -> ConnectionMode {
        if name == "webhook"@ {
            ConnectionMode::Webhook
        } else {
            ConnectionMode::Websocket
        }
    }

    /// The mode that a name in lower case stands for: every other name than that of the webhook
    /// mode stands for the WebSocket mode.
    pub fn from_lowercase(name: &str) -> (r: ConnectionMode)
        ensures
            r == ConnectionMode::named(name@),
    {
        if str_eq(name, "webhook") {
            ConnectionMode::Webhook
        } else {
            ConnectionMode::Websocket
        }
    }
}

/// Configuration of the adapter.
#[derive(Debug, Clone)]
pub struct FeishuConfig {
    pub app_id: String,
    pub app_secret: String,
    pub domain: String,
    pub connection_mode: ConnectionMode,
    pub webhook_path: String,
    pub verification_token: Option<String>,
    pub encrypt_key: Option<String>,
    pub allowed_groups: Vec<String>,
    pub allowed_users: Vec<String>,
    pub require_mention: bool,
    pub dedupe_ttl_secs: u64,
    pub message_limit: usize,
}

/// The values of the environment variables that configure the adapter; `None` stands for a
/// variable that is not set.
#[derive(Debug, Clone)]
pub struct FeishuEnv {
    /// `FEISHU_APP_ID`
    pub app_id: Option<String>,
    /// `FEISHU_APP_SECRET`
    pub app_secret: Option<String>,
    /// `FEISHU_DOMAIN`
    pub domain: Option<String>,
    /// `FEISHU_CONNECTION_MODE`
    pub connection_mode: Option<String>,
    /// `FEISHU_WEBHOOK_PATH`
    pub webhook_path: Option<String>,
    /// `FEISHU_VERIFICATION_TOKEN`
    pub verification_token: Option<String>,
    /// `FEISHU_ENCRYPT_KEY`
    pub encrypt_key: Option<String>,
    /// `FEISHU_ALLOWED_GROUPS`
    pub allowed_groups: Option<String>,
    /// `FEISHU_ALLOWED_USERS`
    pub allowed_users: Option<String>,
    /// `FEISHU_REQUIRE_MENTION`
    pub require_mention: Option<String>,
    /// `FEISHU_DEDUPE_TTL_SECS`
    pub dedupe_ttl_secs: Option<String>,
    /// `FEISHU_MESSAGE_LIMIT`
    pub message_limit: Option<String>,
}

/// How long an event counts as seen where nothing else is configured, in seconds.
pub const DEFAULT_DEDUPE_TTL_SECS: u64 = 300;

/// The size of a message where nothing else is configured, in bytes.
pub const DEFAULT_MESSAGE_LIMIT: usize = 4000;

/// The value, or `default` where there is none.
pub open spec fn value_or(value: Option<String>, default: Seq<char>) -> Seq<char> {
    match value {
        Some(v) => v@,
        None => default,
    }
}

/// The number that the value writes, or `default` where there is none.
pub open spec fn number_or(value: Option<String>, max: nat, default: nat) -> nat {
    match value {
        Some(v) => match unsigned(v@, max) {
            Some(n) => n,
            None => default,
        },
        None => default,
    }
}

/// The pieces that are not blank, trimmed, in order.
pub open spec fn trimmed_items(pieces: Seq<Seq<char>>) -> Seq<Seq<char>>
    decreases pieces.len(),
{
    if pieces.len() == 0 {
        seq![]
    } else {
        let rest = trimmed_items(pieces.drop_last());
        let item = trimmed(pieces.last());
        if item.len() == 0 {
            rest
        } else {
            rest.push(item)
        }
    }
}

/// The items of a comma-separated list.
pub open spec fn csv_items(value: Seq<char>) -> Seq<Seq<char>> {
    trimmed_items(split_on(value, ','))
}

/// The items of a comma-separated list: each trimmed, blank ones left out.
pub fn parse_csv(value: &str) -> (r: Vec<String>)
    ensures
        views(r@) == csv_items(value@),
{
    let pieces = split_at_char(value, ',');
    let ghost all = views(pieces@);
    let mut out: Vec<String> = Vec::new();
    let mut i: usize = 0;
    assert(all.take(0) =~= seq![]);
    assert(views(out@) =~= seq![]);
    while i < pieces.len()
        invariant
            i <= pieces@.len(),
            all == views(pieces@),
            views(out@) == trimmed_items(all.take(i as int)),
        decreases pieces@.len() - i,
    {
        let item = trim(pieces[i].as_str());
        assert(all.take(i + 1).drop_last() =~= all.take(i as int));
        assert(all.take(i + 1).last() == pieces@[i as int]@);
        if !item.is_empty() {
            let ghost before = out@;
            out.push(item.to_string());
            assert(views(out@) =~= views(before).push(item@));
        }
        i = i + 1;
    }
    assert(all.take(all.len() as int) =~= all);
    out
}

fn string_or(value: Option<String>, default: &str) -> (r: String)
    ensures
        r@ == value_or(value, default@),
{
    match value {
        Some(v) => v,
        None => default.to_string(),
    }
}

fn parsed_or(value: &Option<String>, max: u64, default: u64) -> (r: u64)
    requires
        default <= max,
    ensures
        r as nat == number_or(*value, max as nat, default as nat),
        r <= max,
{
    match value {
        Some(v) => match parse_unsigned(v.as_str(), max) {
            Some(n) => n,
            None => default,
        },
        None => default,
    }
}

impl FeishuConfig {
    /// Builds the configuration from environment variables. Returns `None` if the application id is
    /// not set (adapter disabled), or the application secret is not set or empty.
    pub fn from_env(env: FeishuEnv) -> (r: Option<Self>)
        ensures
            r is Some <==> env.app_id is Some && value_or(env.app_secret, seq![]).len() > 0,
            r matches Some(c) ==> {
                &&& c.app_id@ == env.app_id->0@
                &&& c.app_secret@ == env.app_secret->0@
                &&& c.domain@ == value_or(env.domain, "feishu"@)
                &&& c.connection_mode == (match env.connection_mode {
                    Some(name) => ConnectionMode::named(lowercase(name@)),
                    None => ConnectionMode::Websocket,
                })
                &&& c.webhook_path@ == value_or(env.webhook_path, "/webhook/feishu"@)
                &&& opt_view(c.verification_token) == opt_view(env.verification_token)
                &&& opt_view(c.encrypt_key) == opt_view(env.encrypt_key)
                &&& views(c.allowed_groups@) == csv_items(value_or(env.allowed_groups, seq![]))
                &&& views(c.allowed_users@) == csv_items(value_or(env.allowed_users, seq![]))
                &&& c.require_mention == (match env.require_mention {
                    Some(v) => v@ != "false"@ && v@ != "0"@,
                    None => true,
                })
                &&& c.dedupe_ttl_secs as nat == number_or(
                    env.dedupe_ttl_secs,
                    u64::MAX as nat,
                    DEFAULT_DEDUPE_TTL_SECS as nat,
                )
                &&& c.message_limit as nat == number_or(
                    env.message_limit,
                    usize::MAX as nat,
                    DEFAULT_MESSAGE_LIMIT as nat,
                )
                &&& env.dedupe_ttl_secs is None ==> c.dedupe_ttl_secs == 300
                &&& env.message_limit is None ==> c.message_limit == 4000
            },
    {
        let app_id = match env.app_id {
            Some(v) => v,
            None => {
                return None;
            },
        };
        let app_secret = match env.app_secret {
            Some(v) => v,
            None => {
                return None;
            },
        };
        if app_secret.as_str().is_empty() {
            return None;
        }
        let connection_mode = match env.connection_mode {
            Some(name) => ConnectionMode::from_lowercase(name.as_str().to_lowercase().as_str()),
            None => ConnectionMode::Websocket,
        };
        let groups = string_or(env.allowed_groups, "");
        let users = string_or(env.allowed_users, "");
        proof {
            reveal_strlit("");
            assert(""@ =~= seq![]);
        }
        let require_mention = match env.require_mention {
            Some(v) => !str_eq(v.as_str(), "false") && !str_eq(v.as_str(), "0"),
            None => true,
        };
        let dedupe_ttl_secs = parsed_or(&env.dedupe_ttl_secs, u64::MAX, DEFAULT_DEDUPE_TTL_SECS);
        let message_limit = parsed_or(
            &env.message_limit,
            usize::MAX as u64,
            DEFAULT_MESSAGE_LIMIT as u64,
        );
        Some(
            FeishuConfig {
                app_id,
                app_secret,
                domain: string_or(env.domain, "feishu"),
                connection_mode,
                webhook_path: string_or(env.webhook_path, "/webhook/feishu"),
                verification_token: env.verification_token,
                encrypt_key: env.encrypt_key,
                allowed_groups: parse_csv(groups.as_str()),
                allowed_users: parse_csv(users.as_str()),
                require_mention,
                dedupe_ttl_secs,
                message_limit: message_limit as usize,
            },
        )
    }

    /// The API base URL of a domain.
    pub open spec fn base_of(domain: Seq<char>) -> Seq<char> {
        if domain == "lark"@ {
            "https://open.larksuite.com"@
        } else {
            "https://open.feishu.cn"@
        }
    }

    /// API base URL for the configured domain.
    pub fn api_base(&self) -> (r: String)
        ensures
            r@ == FeishuConfig::base_of(self.domain@),
    {
        if str_eq(self.domain.as_str(), "lark") {
            "https://open.larksuite.com".to_string()
        } else {
            "https://open.feishu.cn".to_string()
        }
    }
}

/// Every item of a comma-separated list is trimmed and not empty.
pub proof fn law_csv_items_are_trimmed_and_not_empty(value: Seq<char>)
    ensures
        forall|i: int|
            0 <= i < csv_items(value).len() ==> (#[trigger] csv_items(value)[i]).len() > 0
                && !white_space(csv_items(value)[i].first())
                && !white_space(csv_items(value)[i].last()),
{
    lemma_trimmed_items(split_on(value, ','));
}

proof fn lemma_trimmed_items(pieces: Seq<Seq<char>>)
    ensures
        forall|i: int|
            0 <= i < trimmed_items(pieces).len() ==> (#[trigger] trimmed_items(pieces)[i]).len() > 0
                && !white_space(trimmed_items(pieces)[i].first())
                && !white_space(trimmed_items(pieces)[i].last()),
    decreases pieces.len(),
{
    if pieces.len() > 0 {
        lemma_trimmed_items(pieces.drop_last());
        law_trimmed_ends_are_not_white_space(pieces.last());
        let rest = trimmed_items(pieces.drop_last());
        let items = trimmed_items(pieces);
        assert forall|i: int| 0 <= i < items.len() implies (#[trigger] items[i]).len() > 0
            && !white_space(items[i].first()) && !white_space(
            items[i].last(),
        ) by {
            if i < rest.len() {
                assert(items[i] == rest[i]);
            }
        }
    }
}

/// A variable that is not set, or holds nothing but commas and white space, is an empty list.
pub proof fn law_blank_list_is_empty(value: Seq<char>)
    requires
        forall|i: int|
            0 <= i < value.len() ==> (#[trigger] value[i]) == ',' || white_space(
                value[i],
            ),
    ensures
        csv_items(value) == Seq::<Seq<char>>::empty(),
{
    lemma_blank_pieces(value);
    lemma_blank_items(split_on(value, ','));
}

spec fn blank(s: Seq<char>) -> bool {
    forall|i: int| 0 <= i < s.len() ==> white_space(#[trigger] s[i])
}

proof fn lemma_blank_pieces(value: Seq<char>)
    requires
        forall|i: int|
            0 <= i < value.len() ==> (#[trigger] value[i]) == ',' || white_space(
                value[i],
            ),
    ensures
        forall|i: int|
            0 <= i < split_on(value, ',').len() ==> blank(#[trigger] split_on(value, ',')[i]),
    decreases value.len(),
{
    if value.len() > 0 {
        let v = value.drop_last();
        assert(forall|i: int| 0 <= i < v.len() ==> v[i] == value[i]);
        lemma_blank_pieces(v);
        lemma_split_not_empty(v, ',');
        assert(value.last() == value[value.len() - 1]);
        let p = split_on(v, ',');
        let r = split_on(value, ',');
        assert forall|i: int| 0 <= i < r.len() implies blank(#[trigger] r[i]) by {
            if i < p.len() {
                assert(blank(p[i]));
            }
        }
    }
}

proof fn lemma_blank_items(pieces: Seq<Seq<char>>)
    requires
        forall|i: int| 0 <= i < pieces.len() ==> blank(#[trigger] pieces[i]),
    ensures
        trimmed_items(pieces) == Seq::<Seq<char>>::empty(),
    decreases pieces.len(),
{
    if pieces.len() > 0 {
        assert(forall|i: int|
            0 <= i < pieces.len() - 1 ==> pieces.drop_last()[i] == pieces[i]);
        lemma_blank_items(pieces.drop_last());
        assert(blank(pieces[pieces.len() - 1]));
        law_trimmed_is_empty_iff_all_white_space(pieces.last());
    }
}

/// A comma-separated list is read piece by piece: the items of two lists with a comma between them
/// are the items of the one and then those of the other.
pub proof fn law_lists_are_read_piece_by_piece(a: Seq<char>, b: Seq<char>)
    ensures
        csv_items(a + seq![','] + b) == csv_items(a) + csv_items(b),
{
    lemma_split_at_comma(a, b);
    lemma_trimmed_items_concat(split_on(a, ','), split_on(b, ','));
}

/// A piece without a comma is one item, without the white space around it, or none if there is
/// nothing else.
pub proof fn law_piece_is_one_trimmed_item(piece: Seq<char>)
    requires
        !piece.contains(','),
    ensures
        (forall|i: int| 0 <= i < piece.len() ==> white_space(#[trigger] piece[i])) ==> csv_items(piece)
            == Seq::<Seq<char>>::empty(),
        (exists|i: int| 0 <= i < piece.len() && !white_space(#[trigger] piece[i])) ==> csv_items(piece)
            == seq![trimmed(piece)],
{
    lemma_one_piece(piece);
    reveal_with_fuel(trimmed_items, 2);
    law_trimmed_is_empty_iff_all_white_space(piece);
    assert(seq![piece].drop_last() =~= Seq::<Seq<char>>::empty());
    assert(trimmed_items(seq![piece]) =~= (if trimmed(piece).len() == 0 {
        Seq::<Seq<char>>::empty()
    } else {
        seq![trimmed(piece)]
    }));
}

proof fn lemma_one_piece(piece: Seq<char>)
    requires
        !piece.contains(','),
    ensures
        split_on(piece, ',') == seq![piece],
    decreases piece.len(),
{
    if piece.len() == 0 {
        assert(piece =~= Seq::<char>::empty());
    } else {
        let t = piece.drop_last();
        assert(!t.contains(',')) by {
            if t.contains(',') {
                let j = choose|j: int| 0 <= j < t.len() && t[j] == ',';
                assert(piece[j] == ',');
            }
        }
        lemma_one_piece(t);
        assert(piece[piece.len() - 1] != ',');
        assert(t.push(piece.last()) =~= piece);
        assert(split_on(piece, ',') =~= seq![piece]);
    }
}

proof fn lemma_split_at_comma(a: Seq<char>, b: Seq<char>)
    ensures
        split_on(a + seq![','] + b, ',') == split_on(a, ',') + split_on(b, ','),
    decreases b.len(),
{
    let s = a + seq![','] + b;
    if b.len() == 0 {
        assert(s.drop_last() =~= a);
        assert(s.last() == ',');
        assert(split_on(s, ',') =~= split_on(a, ',') + split_on(b, ','));
    } else {
        let t = b.drop_last();
        lemma_split_at_comma(a, t);
        lemma_split_not_empty(t, ',');
        assert(s.drop_last() =~= a + seq![','] + t);
        assert(s.last() == b.last());
        assert(split_on(s, ',') =~= split_on(a, ',') + split_on(b, ','));
    }
}

proof fn lemma_trimmed_items_concat(a: Seq<Seq<char>>, b: Seq<Seq<char>>)
    ensures
        trimmed_items(a + b) == trimmed_items(a) + trimmed_items(b),
    decreases b.len(),
{
    if b.len() == 0 {
        assert(a + b =~= a);
        assert(trimmed_items(a) + trimmed_items(b) =~= trimmed_items(a));
    } else {
        lemma_trimmed_items_concat(a, b.drop_last());
        assert((a + b).drop_last() =~= a + b.drop_last());
        assert(trimmed_items(a + b) =~= trimmed_items(a) + trimmed_items(b));
    }
}

/// The webhook mode has one name, and every other name stands for the WebSocket mode; the Lark domain
/// has one name, and every other name stands for Feishu.
pub proof fn law_modes_and_domains_go_by_name(name: Seq<char>)
    ensures
        ConnectionMode::named(name) == ConnectionMode::Webhook <==> name == "webhook"@,
        name == "lark"@ ==> FeishuConfig::base_of(name) == "https://open.larksuite.com"@,
        name != "lark"@ ==> FeishuConfig::base_of(name) == "https://open.feishu.cn"@,
{
}

/// A value that is set is taken as it is; a number is taken if the value writes one that is not
/// greater than the maximum. The default stands in only where there is none.
pub proof fn law_defaults_stand_in_for_what_is_missing(
    value: Option<String>,
    text: Seq<char>,
    n: nat,
    max: nat,
    default: nat,
)
    ensures
        value is Some ==> value_or(value, text) == value->0@,
        value is None ==> value_or(value, text) == text,
        value is None ==> number_or(value, max, default) == default,
        value is Some && value->0@ == nat_text(n) ==> number_or(value, max, default) == (if n
            <= max {
            n
        } else {
            default
        }),
        value is Some && unsigned(value->0@, max) is None ==> number_or(value, max, default)
            == default,
{
    law_decimal_number_is_read(n, max);
}

} // verus!
