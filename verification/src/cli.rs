//! The decisions of the command line: where usage data is read from, which
//! snapshot is asked for, the outcome of a pricing cache update, and which
//! theme is used.

use vstd::prelude::*;
use vstd::std_specs::convert::FromSpecImpl;

use crate::loading::{extension_of, last_segment, splittable_path};
use crate::records::{opt_view, InputOptions};
use crate::snapshot::{join_parts, joined, SnapshotFormat, SnapshotView, TimeRange};
use crate::text::{chars_of, push_all, string_from_chars};

verus! {

/// Where usage data is read from.
#[derive(Debug)]
pub enum DataLocation {
    /// An exported JSON file or directory.
    Json(String),
    /// An OpenCode SQLite database.
    Sqlite(String),
}

/// Why no usage data could be located.
#[derive(Clone, Copy, Debug, PartialEq, Eq, Structural)]
pub enum LoadError {
    /// No database was given or found.
    DatabaseNotFound,
}

/// Chooses the data source: a given JSON export first, else the database
/// that was found (`discovered`), else none.
pub fn load_app_data(options: &InputOptions, discovered: Option<String>) -> (r: Result<
    DataLocation,
    LoadError,
>)
    ensures
        match options.json_path {
            Some(p) => r matches Ok(DataLocation::Json(q)) && q@ == p@,
            None => match discovered {
                Some(d) => r matches Ok(DataLocation::Sqlite(q)) && q@ == d@,
                None => r == Err::<DataLocation, LoadError>(LoadError::DatabaseNotFound),
            },
        },
{
    if let Some(json_path) = &options.json_path {
        return Ok(DataLocation::Json(json_path.clone()));
    }
    match discovered {
        Some(db_path) => Ok(DataLocation::Sqlite(db_path)),
        None => Err(LoadError::DatabaseNotFound),
    }
}

/// The time range given to the snapshot command.
#[derive(Clone, Copy, Debug, PartialEq, Eq, Structural)]
pub enum SnapshotRange {
    All,
    Last7Days,
    Last30Days,
}

impl From<SnapshotRange> for TimeRange {
    fn from(value: SnapshotRange) -> (r: Self) {
        match value {
            SnapshotRange::All => TimeRange::All,
            SnapshotRange::Last7Days => TimeRange::Last7Days,
            SnapshotRange::Last30Days => TimeRange::Last30Days,
        }
    }
}

impl FromSpecImpl<SnapshotRange> for TimeRange {
    open spec fn obeys_from_spec() -> bool {
        true
    }

    open spec fn from_spec(v: SnapshotRange) -> TimeRange {
        match v {
            SnapshotRange::All => TimeRange::All,
            SnapshotRange::Last7Days => TimeRange::Last7Days,
            SnapshotRange::Last30Days => TimeRange::Last30Days,
        }
    }
}

/// Why the snapshot command's options were refused.
#[derive(Clone, Copy, Debug, PartialEq, Eq, Structural)]
pub enum SnapshotArgsError {
    /// More than one of `--daily`, `--model` and `--all`.
    TooManyViews,
    /// `--output` without `--format image`.
    OutputWithoutImage,
    /// `--format image` without `--output`.
    MissingOutput,
    /// An image path that does not end in `.png`.
    NotPng,
}

/// The message of a refusal.
pub open spec fn args_error_text(e: SnapshotArgsError) -> Seq<char> {
    match e {
        SnapshotArgsError::TooManyViews => "choose at most one of --daily, --model, or --all"@,
        SnapshotArgsError::OutputWithoutImage => "--output can only be used with --format image"@,
        SnapshotArgsError::MissingOutput => "--output PATH is required with --format image"@,
        SnapshotArgsError::NotPng => "snapshot images must use a .png output path"@,
    }
}

impl SnapshotArgsError {
    /// The message shown for the refusal.
    pub fn message(&self) -> (r: String)
        ensures
            r@ == args_error_text(*self),
    {
        match self {
            SnapshotArgsError::TooManyViews => "choose at most one of --daily, --model, or --all".to_owned(),
            SnapshotArgsError::OutputWithoutImage => "--output can only be used with --format image".to_owned(),
            SnapshotArgsError::MissingOutput => "--output PATH is required with --format image".to_owned(),
            SnapshotArgsError::NotPng => "snapshot images must use a .png output path".to_owned(),
        }
    }
}

/// What the snapshot command will do.
#[derive(Debug)]
pub struct SnapshotPlan {
    pub view: SnapshotView,
    /// The PNG to write, for the image format.
    pub image_output: Option<String>,
}

/// The file extension that marks a PNG image.
pub open spec fn png_extension() -> Seq<char> {
    seq!['p', 'n', 'g']
}

/// The view that the flags select: daily, else model, else everything.
pub open spec fn selected_view(daily: bool, model: bool) -> SnapshotView {
    if daily {
        SnapshotView::Daily
    } else if model {
        SnapshotView::Model
    } else {
        SnapshotView::All
    }
}

/// Checks the snapshot command's options; `output_extension` is the
/// extension of the `--output` path.
pub fn plan_snapshot(
    daily: bool,
    model: bool,
    all: bool,
    format: SnapshotFormat,
    output: Option<String>,
    output_extension: Option<String>,
) -> (r: Result<SnapshotPlan, SnapshotArgsError>)
    ensures
        (daily as int) + (model as int) + (all as int) > 1 ==> r == Err::<
            SnapshotPlan,
            SnapshotArgsError,
        >(SnapshotArgsError::TooManyViews),
        (daily as int) + (model as int) + (all as int) <= 1 ==> match format {
            SnapshotFormat::Terminal => if output is Some {
                r == Err::<SnapshotPlan, SnapshotArgsError>(SnapshotArgsError::OutputWithoutImage)
            } else {
                (r matches Ok(p) && p.view == selected_view(daily, model) && p.image_output is None)
            },
            SnapshotFormat::Image => match output {
                None => r == Err::<SnapshotPlan, SnapshotArgsError>(
                    SnapshotArgsError::MissingOutput,
                ),
                Some(o) => if !(output_extension matches Some(e) && e@ == png_extension()) {
                    r == Err::<SnapshotPlan, SnapshotArgsError>(SnapshotArgsError::NotPng)
                } else {
                    (r matches Ok(p) && p.view == selected_view(daily, model) && (
                    p.image_output matches Some(q) && q@ == o@))
                },
            },
        },
{
    let selected = (daily as u8) + (model as u8) + (all as u8);
    if selected > 1 {
        return Err(SnapshotArgsError::TooManyViews);
    }
    let image_output = match format {
        SnapshotFormat::Terminal => {
            if output.is_some() {
                return Err(SnapshotArgsError::OutputWithoutImage);
            }
            None
        },
        SnapshotFormat::Image => {
            let output = match output {
                Some(o) => o,
                None => return Err(SnapshotArgsError::MissingOutput),
            };
            let is_png = match &output_extension {
                Some(e) => {
                    let cs = chars_of(e.as_str());
                    cs.len() == 3 && cs[0] == 'p' && cs[1] == 'n' && cs[2] == 'g'
                },
                None => false,
            };
            proof {
                if let Some(e) = output_extension {
                    if e@.len() == 3 && e@[0] == 'p' && e@[1] == 'n' && e@[2] == 'g' {
                        assert(e@ =~= png_extension());
                    }
                }
            }
            if !is_png {
                return Err(SnapshotArgsError::NotPng);
            }
            Some(output)
        },
    };
    let view = if daily {
        SnapshotView::Daily
    } else if model {
        SnapshotView::Model
    } else {
        SnapshotView::All
    };
    Ok(SnapshotPlan { view, image_output })
}

/// Calls `Path::extension` and keeps it when it is valid UTF-8. What is
/// stated holds on every platform: an empty path has no extension, and a
/// path that every platform splits at `/` alike has the extension of its
/// last segment.
#[verifier::external_body]
fn path_extension(path: &str) -> (r: Option<String>)
    ensures
        path@.len() == 0 ==> r is None,
        splittable_path(path@) ==> opt_view(r) == extension_of(last_segment(path@)),
{
    std::path::Path::new(path).extension().and_then(|e| e.to_str()).map(|e| e.to_owned())
}

/// Checks the snapshot command's options, reading the extension of the
/// `--output` path. For an output path that every platform splits at `/`
/// alike, the image is accepted exactly when the extension of its file name
/// is `png`; which extension the platform's path functions find for other
/// paths is not stated.
pub fn check_snapshot_args(
    daily: bool,
    model: bool,
    all: bool,
    format: SnapshotFormat,
    output: Option<String>,
) -> (r: Result<SnapshotPlan, SnapshotArgsError>)
    ensures
        (daily as int) + (model as int) + (all as int) > 1 ==> r == Err::<
            SnapshotPlan,
            SnapshotArgsError,
        >(SnapshotArgsError::TooManyViews),
        (daily as int) + (model as int) + (all as int) <= 1 && format == SnapshotFormat::Terminal
            ==> (if output is Some {
            r == Err::<SnapshotPlan, SnapshotArgsError>(SnapshotArgsError::OutputWithoutImage)
        } else {
            (r matches Ok(p) && p.view == selected_view(daily, model) && p.image_output is None)
        }),
        (daily as int) + (model as int) + (all as int) <= 1 && format == SnapshotFormat::Image
            && output is None ==> r == Err::<SnapshotPlan, SnapshotArgsError>(
            SnapshotArgsError::MissingOutput,
        ),
        r matches Ok(p) ==> p.view == selected_view(daily, model),
        format == SnapshotFormat::Image ==> (r matches Ok(p) ==> (p.image_output matches Some(q)
            && output matches Some(o) && q@ == o@)),
        format == SnapshotFormat::Image && output is Some ==> (r matches Err(e) ==> (e
            == SnapshotArgsError::TooManyViews || e == SnapshotArgsError::NotPng)),
        (daily as int) + (model as int) + (all as int) <= 1 && format == SnapshotFormat::Image
            && output is Some && splittable_path(output->0@) ==> (if extension_of(
            last_segment(output->0@),
        ) == Some(png_extension()) {
            r is Ok
        } else {
            r == Err::<SnapshotPlan, SnapshotArgsError>(SnapshotArgsError::NotPng)
        }),
        (daily as int) + (model as int) + (all as int) <= 1 && format == SnapshotFormat::Image
            && output is Some && output->0@.len() == 0 ==> r == Err::<
            SnapshotPlan,
            SnapshotArgsError,
        >(SnapshotArgsError::NotPng),
{
    let extension = match &output {
        Some(o) => path_extension(o.as_str()),
        None => None,
    };
    plan_snapshot(daily, model, all, format, output, extension)
}

/// How the pricing data in use was obtained.
#[derive(Clone, Copy, Debug, PartialEq, Eq, Structural)]
pub enum PricingAvailability {
    /// From the local cache of the remote catalog.
    Cached,
    /// Only from local pricing overrides.
    OverridesOnly,
}

/// What is said of the pricing in use when a refresh fails.
pub open spec fn refresh_failure_hint(a: Option<PricingAvailability>) -> Seq<char> {
    match a {
        Some(PricingAvailability::Cached) => "using the cached pricing data"@,
        Some(PricingAvailability::OverridesOnly) => "using local pricing overrides only"@,
        None => "current pricing fallback status is unknown"@,
    }
}

fn failure_hint(a: Option<PricingAvailability>) -> (r: String)
    ensures
        r@ == refresh_failure_hint(a),
{
    match a {
        Some(PricingAvailability::Cached) => "using the cached pricing data".to_owned(),
        Some(PricingAvailability::OverridesOnly) => "using local pricing overrides only".to_owned(),
        None => "current pricing fallback status is unknown".to_owned(),
    }
}

/// The outcome of updating the pricing cache at `path` (as displayed): a
/// success message, or the context added to the failure, which names the
/// path and what pricing remains in use.
pub fn finalize_cache_update(
    path: &str,
    current: Option<PricingAvailability>,
    succeeded: bool,
) -> (r: Result<String, String>)
    ensures
        succeeded ==> (r matches Ok(m) && m@ == "Updated "@ + path@),
        !succeeded ==> (r matches Err(m) && m@ == "failed to update "@ + path@ + "; "@
            + refresh_failure_hint(current)),
{
    let mut v: Vec<char> = Vec::new();
    if succeeded {
        let c = chars_of("Updated ");
        push_all(&mut v, c.as_slice());
        let c = chars_of(path);
        push_all(&mut v, c.as_slice());
        return Ok(string_from_chars(v.as_slice()));
    }
    let c = chars_of("failed to update ");
    push_all(&mut v, c.as_slice());
    let c = chars_of(path);
    push_all(&mut v, c.as_slice());
    let c = chars_of("; ");
    push_all(&mut v, c.as_slice());
    let hint = failure_hint(current);
    let c = chars_of(hint.as_str());
    push_all(&mut v, c.as_slice());
    Err(string_from_chars(v.as_slice()))
}


/// Whether a theme is dark or light.
#[derive(Clone, Copy, Debug, PartialEq, Eq, Structural)]
pub enum ThemeKind {
    Dark,
    Light,
}

/// The name of a theme kind as printed.
pub open spec fn kind_text(k: ThemeKind) -> Seq<char> {
    match k {
        ThemeKind::Dark => "Dark"@,
        ThemeKind::Light => "Light"@,
    }
}

/// Why the configured theme cannot be used.
#[derive(Debug)]
pub enum ThemeError {
    /// No theme of that name; `available` lists the names, comma separated.
    NotFound { name: String, available: String },
    /// The theme of that name is of the other kind.
    WrongKind { name: String, found: ThemeKind, expected: ThemeKind },
}

/// The names of a catalog joined with commas.
pub open spec fn names_list(names: Seq<String>) -> Seq<char> {
    joined(names.map_values(|n: String| n@), ", "@)
}

/// The message of a theme error.
pub open spec fn theme_error_text(e: ThemeError) -> Seq<char> {
    match e {
        ThemeError::NotFound { name, available } => "theme '"@ + name@ + "' not found; available themes: "@
            + available@,
        ThemeError::WrongKind { name, found, expected } => "theme '"@ + name@ + "' has type "@ + kind_text(
            found,
        ) + ", expected "@ + kind_text(expected),
    }
}

fn kind_name(k: ThemeKind) -> (r: Vec<char>)
    ensures
        r@ == kind_text(k),
{
    match k {
        ThemeKind::Dark => chars_of("Dark"),
        ThemeKind::Light => chars_of("Light"),
    }
}

impl ThemeError {
    /// The message shown for the error.
    pub fn message(&self) -> (r: String)
        ensures
            r@ == theme_error_text(*self),
    {
        let mut v: Vec<char> = Vec::new();
        match self {
            ThemeError::NotFound { name, available } => {
                push_all(&mut v, chars_of("theme '").as_slice());
                push_all(&mut v, chars_of(name.as_str()).as_slice());
                push_all(&mut v, chars_of("' not found; available themes: ").as_slice());
                push_all(&mut v, chars_of(available.as_str()).as_slice());
            },
            ThemeError::WrongKind { name, found, expected } => {
                push_all(&mut v, chars_of("theme '").as_slice());
                push_all(&mut v, chars_of(name.as_str()).as_slice());
                push_all(&mut v, chars_of("' has type ").as_slice());
                push_all(&mut v, kind_name(*found).as_slice());
                push_all(&mut v, chars_of(", expected ").as_slice());
                push_all(&mut v, kind_name(*expected).as_slice());
            },
        }
        assert(v@ =~= theme_error_text(*self));
        string_from_chars(v.as_slice())
    }
}

/// The position of the first name equal to `name`, or -1.
pub open spec fn first_named(names: Seq<String>, name: Seq<char>) -> int
    decreases names.len(),
{
    if names.len() == 0 {
        -1
    } else if first_named(names.drop_last(), name) >= 0 {
        first_named(names.drop_last(), name)
    } else if names.last()@ == name {
        names.len() - 1
    } else {
        -1
    }
}

/// Chooses the theme for `kind` from a catalog given as parallel lists of
/// names and kinds: the configured dark or light theme name, looked up by
/// name, which must be of the wanted kind. Returns its position.
pub fn select_theme(
    kind: ThemeKind,
    dark_name: &str,
    light_name: &str,
    names: &Vec<String>,
    kinds: &Vec<ThemeKind>,
) -> (r: Result<usize, ThemeError>)
    requires
        names@.len() == kinds@.len(),
    ensures
        ({
            let wanted = if kind == ThemeKind::Dark {
                dark_name@
            } else {
                light_name@
            };
            let i = first_named(names@, wanted);
            &&& i < 0 ==> (r matches Err(ThemeError::NotFound { name, available }) && name@ == wanted
                && available@ == names_list(names@))
            &&& i >= 0 && kinds@[i] != kind ==> (r matches Err(
                ThemeError::WrongKind { name, found, expected },
            ) && name@ == wanted && found == kinds@[i] && expected == kind)
            &&& i >= 0 && kinds@[i] == kind ==> r == Ok::<usize, ThemeError>(i as usize)
        }),
{
    let wanted = if kind == ThemeKind::Dark {
        chars_of(dark_name)
    } else {
        chars_of(light_name)
    };
    let mut found: Option<usize> = None;
    let mut k: usize = 0;
    assert(names@.take(0) =~= Seq::<String>::empty());
    while k < names.len()
        invariant
            k <= names@.len(),
            match found {
                Some(i) => i < k && first_named(names@.take(k as int), wanted@) == i,
                None => first_named(names@.take(k as int), wanted@) < 0,
            },
        decreases names@.len() - k,
    {
        assert(names@.take(k + 1).drop_last() =~= names@.take(k as int));
        assert(names@.take(k + 1).last() == names@[k as int]);
        if found.is_none() {
            let n = chars_of(names[k].as_str());
            if crate::queries::chars_equal(n.as_slice(), wanted.as_slice()) {
                found = Some(k);
            }
        }
        k += 1;
    }
    assert(names@.take(names@.len() as int) =~= names@);
    match found {
        None => {
            let mut parts: Vec<Vec<char>> = Vec::new();
            let mut j: usize = 0;
            while j < names.len()
                invariant
                    j <= names@.len(),
                    parts@.len() == j,
                    forall|x: int| 0 <= x < j ==> #[trigger] parts@[x]@ == names@[x]@,
                decreases names@.len() - j,
            {
                parts.push(chars_of(names[j].as_str()));
                j += 1;
            }
            assert(parts@.map_values(|p: Vec<char>| p@) =~= names@.map_values(|n: String| n@));
            let sep = chars_of(", ");
            let list = join_parts(&parts, sep.as_slice());
            Err(
                ThemeError::NotFound {
                    name: string_from_chars(wanted.as_slice()),
                    available: string_from_chars(list.as_slice()),
                },
            )
        },
        Some(i) => {
            if kinds[i] != kind {
                Err(
                    ThemeError::WrongKind {
                        name: string_from_chars(wanted.as_slice()),
                        found: kinds[i],
                        expected: kind,
                    },
                )
            } else {
                Ok(i)
            }
        },
    }
}

} // verus!
