//! The command-line surface as plain data, the response shaper, and the
//! assembly of the output envelope. Argument parsing itself stays with the
//! caller, which fills `Cli` in.

use vstd::prelude::*;

use crate::json::Json;
use crate::json::Jv;
use crate::json::obj_get;
use crate::json::obj_get_field;
use crate::api::jv_fields;
use crate::output::OutputFormat;
use crate::output::spec_parse_page_number;
use crate::output::spec_wrap_ok;
use crate::proj::spec_project;
use crate::proj::spec_project_item_fb;
use crate::config::Config;
use crate::config::TokenSource;
use crate::config::spec_source_name;

verus! {

/// Colour control for diagnostics.
pub enum ColorChoice {
    Always,
    Auto,
    Never,
}

/// The global command-line options.
pub struct Cli {
    /// JSON output.
    pub json: bool,
    /// Raw output (HTTP body).
    pub raw: bool,
    /// Field selection: dot paths or shorthand groups.
    pub fields: Vec<String>,
    /// Page number.
    pub page: Option<u32>,
    /// Items per page.
    pub per_page: Option<u32>,
    /// Fetch all pages.
    pub all: bool,
    /// Cap on total items when fetching all pages.
    pub limit: Option<u32>,
    /// Cap on pages when fetching all pages.
    pub max_pages: Option<u32>,
    /// jq expression passthrough.
    pub jq: Option<String>,
    /// jmes expression passthrough.
    pub jmes: Option<String>,
    /// Timeout in seconds.
    pub timeout: u64,
    /// Retry budget.
    pub max_retries: u32,
    /// Retry delay override in seconds.
    pub retry_after: Option<u64>,
    /// Host override.
    pub host: Option<String>,
    /// Locale for Accept-Language.
    pub locale: Option<String>,
    /// Verbose logging.
    pub verbose: bool,
    /// Debug logging.
    pub debug: bool,
    /// Colour control.
    pub color: Option<ColorChoice>,
    /// The selected subcommand.
    pub command: Commands,
}

pub enum Commands {
    Auth(AuthCmd),
    Config(ConfigCmd),
    Quota(QuotaCmd),
    Photos(PhotosCmd),
    Videos(VideosCmd),
    Collections(CollectionsCmd),
    Util(UtilCmd),
}

pub struct AuthCmd {
    pub sub: AuthSub,
}

pub enum AuthSub {
    Login { token: Option<String> },
    Status,
    TokenSource,
    Logout,
}

pub struct ConfigCmd {
    pub sub: ConfigSub,
}

pub enum ConfigSub {
    Assign { key: String, value: String },
    Get { key: String },
    Path,
}

pub struct QuotaCmd {
    pub sub: QuotaSub,
}

pub enum QuotaSub {
    View,
}

pub struct PhotosCmd {
    pub sub: PhotosSub,
}

pub enum PhotosSub {
    Search { query: String },
    Curated,
    Get { id: String },
    Url { id: String, size: Option<PhotoSize> },
    Download { id: String, path: String },
}

/// The size variants a photo's `src` object offers.
pub enum PhotoSize {
    Original,
    Large2x,
    Large,
    Medium,
    Small,
    Portrait,
    Landscape,
    Tiny,
}

impl PhotoSize {
    /// The key of this size variant in a photo's `src` object.
    pub fn key(&self) -> (r: &'static str)
        ensures
            r@ == match *self {
                PhotoSize::Original => "original"@,
                PhotoSize::Large2x => "large2x"@,
                PhotoSize::Large => "large"@,
                PhotoSize::Medium => "medium"@,
                PhotoSize::Small => "small"@,
                PhotoSize::Portrait => "portrait"@,
                PhotoSize::Landscape => "landscape"@,
                PhotoSize::Tiny => "tiny"@,
            },
    {
        match self {
            PhotoSize::Original => "original",
            PhotoSize::Large2x => "large2x",
            PhotoSize::Large => "large",
            PhotoSize::Medium => "medium",
            PhotoSize::Small => "small",
            PhotoSize::Portrait => "portrait",
            PhotoSize::Landscape => "landscape",
            PhotoSize::Tiny => "tiny",
        }
    }
}

pub struct VideosCmd {
    pub sub: VideosSub,
}

pub enum VideosSub {
    Search { query: String },
    Popular,
    Get { id: String },
}

pub struct CollectionsCmd {
    pub sub: CollectionsSub,
}

pub enum CollectionsSub {
    List,
    Featured,
    Get { id: String },
    Items { id: String },
}

pub struct UtilCmd {
    pub sub: UtilSub,
}

pub enum UtilSub {
    Inspect,
    Ping,
}

/// The output format the flags select: raw wins over JSON, YAML is the
/// default.
pub fn fmt_from_cli(cli: &Cli) -> (r: OutputFormat)
    ensures
        cli.raw ==> r is Raw,
        !cli.raw && cli.json ==> r is Json,
        !cli.raw && !cli.json ==> r is Yaml,
{
    if cli.raw {
        OutputFormat::Raw
    } else if cli.json {
        OutputFormat::Json
    } else {
        OutputFormat::Yaml
    }
}

/// A pagination cursor normalized to an integer: a non-negative number is
/// taken directly (truncated to 32 bits), a URL string is searched for its
/// `page` parameter, and anything else reads as null.
pub open spec fn spec_page_cursor(v: Option<Jv>) -> Jv {
    match v {
        Some(Jv::Int(n)) => if n >= 0 {
            Jv::Int((((n as u64) as u32) as i64))
        } else {
            Jv::Null
        },
        Some(Jv::Str(s)) => match spec_parse_page_number(s) {
            Some(p) => Jv::Int(p as i64),
            None => Jv::Null,
        },
        _ => Jv::Null,
    }
}

/// The normalized meta object of a response: `total_results` where the
/// response holds a non-negative number under it, then the `next_page` and
/// `prev_page` cursors.
pub open spec fn spec_shape_meta(j: Jv) -> Jv {
    let pf = jv_fields(j);
    let head = match obj_get(pf, "total_results"@) {
        Some(Jv::Int(n)) => if n >= 0 {
            seq![("total_results"@, Jv::Int(n))]
        } else {
            Seq::empty()
        },
        _ => Seq::empty(),
    };
    Jv::Obj(
        head + seq![
            ("next_page"@, spec_page_cursor(obj_get(pf, "next_page"@))),
            ("prev_page"@, spec_page_cursor(obj_get(pf, "prev_page"@))),
        ],
    )
}

/// The data part of a shaped response: the first item array among the
/// known plural keys, or the whole document where none is present.
pub open spec fn spec_shape_data(j: Jv) -> Jv {
    let pf = jv_fields(j);
    if obj_get(pf, "photos"@) matches Some(Jv::Arr(_)) {
        obj_get(pf, "photos"@)->Some_0
    } else if obj_get(pf, "videos"@) matches Some(Jv::Arr(_)) {
        obj_get(pf, "videos"@)->Some_0
    } else if obj_get(pf, "collections"@) matches Some(Jv::Arr(_)) {
        obj_get(pf, "collections"@)->Some_0
    } else if obj_get(pf, "media"@) matches Some(Jv::Arr(_)) {
        obj_get(pf, "media"@)->Some_0
    } else {
        j
    }
}

fn page_cursor(v: Option<&Json>) -> (r: Json)
    ensures
        r.jv() == spec_page_cursor(
            match v {
                Some(j) => Some(j.jv()),
                None => None,
            },
        ),
{
    match v {
        Some(j) => {
            match j {
                Json::Int(n) => {
                    if *n >= 0 {
                        Json::Int(((*n as u64) as u32) as i64)
                    } else {
                        Json::Null
                    }
                },
                Json::Str(s) => {
                    match crate::output::parse_page_number(s.as_str()) {
                        Some(p) => Json::Int(p as i64),
                        None => Json::Null,
                    }
                },
                _ => Json::Null,
            }
        },
        None => Json::Null,
    }
}

/// Splits a raw response into its data payload and normalized meta.
pub fn shape_output(input: &Json) -> (r: (Json, Json))
    ensures
        r.0.jv() == spec_shape_data(input.jv()),
        r.1.jv() == spec_shape_meta(input.jv()),
{
    broadcast use crate::json::lemma_jv_arr, crate::json::lemma_jv_obj;

    let mut meta: Vec<(String, Json)> = Vec::new();
    match input {
        Json::Obj(pf) => {
            proof {
                assert(jv_fields(input.jv()) =~= pf.deep_view());
            }
            match obj_get_field(pf, "total_results") {
                Some(t) => {
                    match t {
                        Json::Int(n) => {
                            if *n >= 0 {
                                meta.push(("total_results".to_owned(), Json::Int(*n)));
                            }
                        },
                        _ => {},
                    }
                },
                None => {},
            }
            let next = page_cursor(obj_get_field(pf, "next_page"));
            meta.push(("next_page".to_owned(), next));
            let prev = page_cursor(obj_get_field(pf, "prev_page"));
            meta.push(("prev_page".to_owned(), prev));
            proof {
                assert(meta.deep_view() =~~= spec_shape_meta(input.jv())->Obj_0);
            }
            let meta_json = Json::Obj(meta);
            let data: Json = {
                let mut found: Option<&Json> = None;
                match obj_get_field(pf, "photos") {
                    Some(v) => {
                        if let Json::Arr(_) = v {
                            found = Some(v);
                        }
                    },
                    None => {},
                }
                if found.is_none() {
                    match obj_get_field(pf, "videos") {
                        Some(v) => {
                            if let Json::Arr(_) = v {
                                found = Some(v);
                            }
                        },
                        None => {},
                    }
                }
                if found.is_none() {
                    match obj_get_field(pf, "collections") {
                        Some(v) => {
                            if let Json::Arr(_) = v {
                                found = Some(v);
                            }
                        },
                        None => {},
                    }
                }
                if found.is_none() {
                    match obj_get_field(pf, "media") {
                        Some(v) => {
                            if let Json::Arr(_) = v {
                                found = Some(v);
                            }
                        },
                        None => {},
                    }
                }
                match found {
                    Some(v) => v.deep_copy(),
                    None => input.deep_copy(),
                }
            };
            (data, meta_json)
        },
        _ => {
            proof {
                assert(jv_fields(input.jv()) =~= Seq::<(Seq<char>, Jv)>::empty());
            }
            let next = page_cursor(None);
            meta.push(("next_page".to_owned(), next));
            let prev = page_cursor(None);
            meta.push(("prev_page".to_owned(), prev));
            proof {
                assert(meta.deep_view() =~~= spec_shape_meta(input.jv())->Obj_0);
            }
            (input.deep_copy(), Json::Obj(meta))
        },
    }
}

/// The auth status payload: the token source, whether a non-empty token is
/// present, and a detail object explaining the source.
pub open spec fn spec_auth_status(cfg: Config) -> Jv {
    let present = match cfg.token {
        Some(t) => t@.len() > 0,
        None => false,
    };
    let source = match cfg.token_source {
        Some(ts) => ts,
        None => TokenSource::Unset,
    };
    let details = match source {
        TokenSource::Env => Jv::Obj(
            seq![("var"@, Jv::Str("PEXELS_TOKEN"@)), ("set"@, Jv::Bool(present))],
        ),
        TokenSource::Config => Jv::Obj(
            seq![("path"@, Jv::Str(cfg.config_path@)), ("profile"@, Jv::Null)],
        ),
        TokenSource::Cli => Jv::Obj(seq![("set"@, Jv::Bool(present))]),
        TokenSource::Unset => Jv::Obj(seq![("reason"@, Jv::Str("no token found"@))]),
    };
    Jv::Obj(
        seq![
            ("source"@, Jv::Str(spec_source_name(source))),
            ("present"@, Jv::Bool(present)),
            ("details"@, details),
        ],
    )
}

/// Builds the auth status payload for a configuration.
pub fn build_auth_status(cfg: &Config) -> (r: Json)
    ensures
        r.jv() == spec_auth_status(*cfg),
{
    broadcast use crate::json::lemma_jv_obj;

    let (source_name, present) = cfg.token_source_with_presence();
    let ghost sdetails = (spec_auth_status(*cfg)->Obj_0)[2].1->Obj_0;
    let mut details: Vec<(String, Json)> = Vec::new();
    match &cfg.token_source {
        Some(TokenSource::Env) => {
            details.push(("var".to_owned(), Json::Str("PEXELS_TOKEN".to_owned())));
            details.push(("set".to_owned(), Json::Bool(present)));
            proof {
                assert(details.deep_view() =~~= sdetails);
            }
        },
        Some(TokenSource::Config) => {
            details.push(("path".to_owned(), Json::Str(cfg.path())));
            details.push(("profile".to_owned(), Json::Null));
            proof {
                assert(details.deep_view() =~~= sdetails);
            }
        },
        Some(TokenSource::Cli) => {
            details.push(("set".to_owned(), Json::Bool(present)));
            proof {
                assert(details.deep_view() =~~= sdetails);
            }
        },
        _ => {
            details.push(("reason".to_owned(), Json::Str("no token found".to_owned())));
            proof {
                assert(details.deep_view() =~~= sdetails);
            }
        },
    }
    let mut payload: Vec<(String, Json)> = Vec::new();
    payload.push(("source".to_owned(), Json::Str(source_name)));
    payload.push(("present".to_owned(), Json::Bool(present)));
    payload.push(("details".to_owned(), Json::Obj(details)));
    proof {
        let sv = spec_auth_status(*cfg)->Obj_0;
        let pv = payload.deep_view();
        assert(sv[2].1 == Jv::Obj(sdetails));
        assert(pv =~~= sv);
    }
    Json::Obj(payload)
}

/// The valid keys of `config set`: the token under either name.
pub fn config_set_key(cfg: &mut Config, key: &str, value: &str) -> (r: bool)
    ensures
        r == (key@ == "token"@ || key@ == "api_key"@),
        r ==> (final(cfg).token matches Some(t) && t@ == value@),
        !r ==> final(cfg).token == old(cfg).token,
        final(cfg).token_source == old(cfg).token_source,
        final(cfg).host == old(cfg).host,
        final(cfg).timeout_secs == old(cfg).timeout_secs,
        final(cfg).locale == old(cfg).locale,
        final(cfg).max_retries == old(cfg).max_retries,
        final(cfg).retry_after == old(cfg).retry_after,
        final(cfg).config_path == old(cfg).config_path,
{
    if crate::text::str_eq(key, "token") || crate::text::str_eq(key, "api_key") {
        cfg.token = Some(value.to_owned());
        true
    } else {
        false
    }
}


/// The page and per-page query parameters a request carries, in order,
/// each rendered in decimal.
pub open spec fn spec_pagination_qp(page: Option<u32>, per_page: Option<u32>) -> Seq<
    (Seq<char>, Seq<char>),
> {
    (match page {
        Some(p) => seq![("page"@, crate::text::spec_u32_digits(p as int))],
        None => Seq::empty(),
    }) + (match per_page {
        Some(pp) => seq![("per_page"@, crate::text::spec_u32_digits(pp as int))],
        None => Seq::empty(),
    })
}

/// Builds the pagination query parameters of a request.
pub fn pagination_qp(cli: &Cli) -> (r: Vec<(String, String)>)
    ensures
        r.deep_view() == spec_pagination_qp(cli.page, cli.per_page),
{
    let mut qp: Vec<(String, String)> = Vec::new();
    match cli.page {
        Some(p) => {
            qp.push(("page".to_owned(), crate::text::u32_to_string(p)));
        },
        None => {},
    }
    match cli.per_page {
        Some(pp) => {
            qp.push(("per_page".to_owned(), crate::text::u32_to_string(pp)));
        },
        None => {},
    }
    proof {
        assert(qp.deep_view() =~~= spec_pagination_qp(cli.page, cli.per_page));
    }
    qp
}

/// Which selector defaults an endpoint family brings.
pub enum DefaultFields {
    Bare,
    Photos,
    Videos,
    Collections,
}

/// The default selector list of an endpoint family.
pub open spec fn spec_default_fields(d: DefaultFields) -> Seq<Seq<char>> {
    match d {
        DefaultFields::Bare => Seq::empty(),
        DefaultFields::Photos => seq![
            "id"@,
            "photographer"@,
            "alt"@,
            "width"@,
            "height"@,
            "avg_color"@,
        ],
        DefaultFields::Videos => seq!["duration"@, "width"@, "height"@],
        DefaultFields::Collections => seq!["title"@, "description"@, "media_count"@],
    }
}

fn default_fields_for(d: &DefaultFields) -> (r: Vec<String>)
    ensures
        r.deep_view() == spec_default_fields(*d),
{
    let mut out: Vec<String> = Vec::new();
    match d {
        DefaultFields::Bare => {},
        DefaultFields::Photos => {
            out.push("id".to_owned());
            out.push("photographer".to_owned());
            out.push("alt".to_owned());
            out.push("width".to_owned());
            out.push("height".to_owned());
            out.push("avg_color".to_owned());
        },
        DefaultFields::Videos => {
            out.push("duration".to_owned());
            out.push("width".to_owned());
            out.push("height".to_owned());
        },
        DefaultFields::Collections => {
            out.push("title".to_owned());
            out.push("description".to_owned());
            out.push("media_count".to_owned());
        },
    }
    proof {
        assert(out.deep_view() =~= spec_default_fields(*d));
    }
    out
}

/// What the envelope holds for a response: the shaped data — projected
/// item by item for a list, as one resource with the fallback for an
/// object, plainly otherwise — wrapped with the normalized meta.
pub open spec fn spec_envelope(data: Jv, fields: Seq<Seq<char>>, d: DefaultFields) -> Jv {
    let eff = if fields.len() == 0 {
        spec_default_fields(d)
    } else {
        fields
    };
    let shaped = spec_shape_data(data);
    let meta = spec_shape_meta(data);
    let payload = if data is Obj && shaped is Arr {
        Jv::Arr(
            Seq::new(
                shaped->Arr_0.len(),
                |i: int| spec_project_item_fb(shaped->Arr_0[i], eff),
            ),
        )
    } else if data is Obj {
        spec_project_item_fb(data, eff)
    } else {
        spec_project(data, eff)
    };
    spec_wrap_ok(payload, Some(meta))
}

/// Builds the `{data, meta}` envelope for a response, applying the
/// caller's selectors or the endpoint family's defaults.
#[verifier::loop_isolation(false)]
pub fn build_envelope(data: &Json, fields: &Vec<String>, d: &DefaultFields) -> (r: Json)
    ensures
        r.jv() == spec_envelope(data.jv(), fields.deep_view(), *d),
{
    broadcast use crate::json::lemma_jv_arr, crate::json::lemma_jv_obj;

    let eff: Vec<String> = if fields.len() == 0 {
        default_fields_for(d)
    } else {
        let mut copy: Vec<String> = Vec::new();
        let n = fields.len();
        let mut i: usize = 0;
        while i < n
            invariant
                0 <= i <= n,
                copy.deep_view() == fields.deep_view().take(i as int),
            decreases n - i,
        {
            let ghost pre = copy.deep_view();
            copy.push(fields[i].clone());
            proof {
                assert(copy.deep_view() =~= pre.push(fields.deep_view()[i as int]));
                assert(copy.deep_view() =~= fields.deep_view().take(i + 1));
            }
            i += 1;
        }
        proof {
            assert(copy.deep_view() =~= fields.deep_view());
        }
        copy
    };
    let shaped_pair = shape_output(data);
    let shaped = shaped_pair.0;
    let meta = shaped_pair.1;
    let data_is_obj = match data {
        Json::Obj(_) => true,
        _ => false,
    };
    let payload: Json = if data_is_obj {
        match shaped {
            Json::Arr(items) => {
                let projected = crate::proj::project_items_with_fallback(&items, &eff);
                proof {
                    let sdv = spec_shape_data(data.jv());
                    let pdv = projected.deep_view();
                    assert forall|i2: int| 0 <= i2 < projected@.len() implies pdv[i2]
                        == spec_project_item_fb(sdv->Arr_0[i2], eff.deep_view()) by {
                        assert(projected@[i2].jv() == spec_project_item_fb(
                            items@[i2].jv(),
                            eff.deep_view(),
                        ));
                        assert(sdv->Arr_0[i2] == items.deep_view()[i2]);
                    }
                    assert(Json::Arr(projected).jv()->Arr_0 =~= Seq::new(
                        sdv->Arr_0.len(),
                        |i2: int| spec_project_item_fb(sdv->Arr_0[i2], eff.deep_view()),
                    ));
                }
                Json::Arr(projected)
            },
            _ => crate::proj::project_item_with_fallback(data, &eff),
        }
    } else {
        crate::proj::project(data, &eff)
    };
    crate::output::wrap_ok(&payload, Some(meta))
}

} // verus!
