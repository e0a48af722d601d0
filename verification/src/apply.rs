//! Checks made before a wallpaper is applied: which catalogue entry an id
//! names, whether the desktop portal can show it, and which renderer an
//! apply to several displays reports.

use vstd::prelude::*;
use crate::text::{all_digits, contains_string, digits_value, parse_unsigned, parse_unsigned_exec, strings_view};

verus! {

/// The wallpaper and the file URI that the desktop portal was asked to show.
#[derive(Debug, Clone, PartialEq, Eq)]
pub struct PortalApplyResult {
    pub wallpaper_id: String,
    pub uri: String,
}

/// What `str::parse::<i64>` gives: an optional sign, then one or more
/// decimal digits, in range.
pub open spec fn parse_i64_spec(s: Seq<char>) -> Option<int> {
    if s.len() > 0 && s[0] == '-' {
        let d = s.drop_first();
        if d.len() == 0 || !all_digits(d) || digits_value(d) > 0x8000_0000_0000_0000 {
            None
        } else {
            Some(-digits_value(d))
        }
    } else {
        parse_unsigned(s, i64::MAX as int)
    }
}

/// The catalogue id named by `id`, when it is a decimal `i64`.
pub fn parse_entry_id(id: &str) -> (r: Option<i64>)
    ensures
        match parse_i64_spec(id@) {
            Some(v) => r == Some(v as i64) && i64::MIN <= v <= i64::MAX,
            None => r is None,
        },
{
    let n = id.unicode_len();
    if n > 0 && id.get_char(0) == '-' {
        let rest = id.substring_char(1, n);
        assert(rest@ =~= id@.drop_first());
        if rest.unicode_len() > 0 && rest.get_char(0) == '+' {
            return None;
        }
        match parse_unsigned_exec(rest, 0x8000_0000_0000_0000u64) {
            Some(v) => {
                if v == 0x8000_0000_0000_0000u64 {
                    Some(i64::MIN)
                } else {
                    let m: i64 = v as i64;
                    Some(-m)
                }
            },
            None => None,
        }
    } else {
        match parse_unsigned_exec(id, 0x7fff_ffff_ffff_ffffu64) {
            Some(v) => Some(v as i64),
            None => None,
        }
    }
}

/// The code of `c` with ASCII capitals made small.
pub open spec fn ascii_lower(c: char) -> u32 {
    if 'A' <= c <= 'Z' {
        ((c as u32) + 32) as u32
    } else {
        c as u32
    }
}

/// `str::eq_ignore_ascii_case`: the same length, and the same characters
/// once ASCII capitals are made small.
pub open spec fn eq_ignore_ascii_case(a: Seq<char>, b: Seq<char>) -> bool {
    a.len() == b.len() && forall|i: int| 0 <= i < a.len() ==> ascii_lower(a[i]) == ascii_lower(b[i])
}

fn ascii_lower_exec(c: char) -> (r: u32)
    ensures
        r == ascii_lower(c),
{
    if 'A' <= c && c <= 'Z' {
        c as u32 + 32
    } else {
        c as u32
    }
}

/// Whether `a` and `b` match when ASCII case is ignored.
pub fn eq_ignore_ascii_case_exec(a: &str, b: &str) -> (r: bool)
    ensures
        r == eq_ignore_ascii_case(a@, b@),
{
    let n = a.unicode_len();
    if n != b.unicode_len() {
        return false;
    }
    let mut i: usize = 0;
    while i < n
        invariant
            n == a@.len(),
            n == b@.len(),
            i <= n,
            forall|j: int| 0 <= j < i ==> ascii_lower(a@[j]) == ascii_lower(b@[j]),
        decreases n - i,
    {
        if ascii_lower_exec(a.get_char(i)) != ascii_lower_exec(b.get_char(i)) {
            return false;
        }
        i = i + 1;
    }
    true
}

/// Why the desktop portal cannot show a wallpaper.
#[derive(Debug, Clone, Copy, PartialEq, Eq, Structural)]
pub enum PortalEntryError {
    /// The portal shows images only.
    NotAnImage,
    /// The image's resource is not an absolute path.
    RelativeResource,
}

/// Whether the desktop portal can show an entry of type `wp_type` stored at
/// `resource`: it must be an image, in any case, with an absolute path.
pub fn check_portal_entry(wp_type: &str, resource: &str) -> (r: Result<(), PortalEntryError>)
    ensures
        !eq_ignore_ascii_case(wp_type@, "image"@) ==> r == Err::<(), PortalEntryError>(
            PortalEntryError::NotAnImage,
        ),
        eq_ignore_ascii_case(wp_type@, "image"@) && !(resource@.len() > 0 && resource@[0] == '/')
            ==> r == Err::<(), PortalEntryError>(PortalEntryError::RelativeResource),
        eq_ignore_ascii_case(wp_type@, "image"@) && resource@.len() > 0 && resource@[0] == '/'
            ==> r is Ok,
{
    if !eq_ignore_ascii_case_exec(wp_type, "image") {
        return Err(PortalEntryError::NotAnImage);
    }
    if resource.unicode_len() == 0 || resource.get_char(0) != '/' {
        return Err(PortalEntryError::RelativeResource);
    }
    Ok(())
}

/// The renderer an apply to displays one by one reports: the first one that
/// became active, else the first one assigned at all.
pub fn reported_renderer(first_active: Option<String>, first_assigned: Option<String>) -> (r:
    Option<String>)
    ensures
        r == (if first_active is Some {
            first_active
        } else {
            first_assigned
        }),
{
    match first_active {
        Some(id) => Some(id),
        None => first_assigned,
    }
}

/// Why a wallpaper cannot be applied.
#[derive(Debug, Clone, PartialEq, Eq)]
pub enum ApplyRefusal {
    /// No renderer has the requested name.
    RendererNotFound(String),
    /// The requested renderer does not draw this type of wallpaper.
    RendererTypeMismatch { renderer: String, ty: String },
    /// No renderer draws this type of wallpaper.
    NoRendererForType(String),
    /// The apply needs a display and there is none to draw on.
    NoDisplayRegistered,
}

/// The renderer that draws a wallpaper of type `wp_type`: the one requested
/// by a non-empty name, when it exists (`named_types` holds the types it
/// draws) and draws that type; without such a request, the registry's
/// default for the type.
pub fn resolve_renderer_choice(
    requested: Option<String>,
    named_types: Option<Vec<String>>,
    default_for_type: Option<String>,
    wp_type: &str,
) -> (r: Result<String, ApplyRefusal>)
    ensures
        match requested {
            Some(name) if name@.len() > 0 => match named_types {
                None => r matches Err(ApplyRefusal::RendererNotFound(n)) && n@ == name@,
                Some(types) => if strings_view(types@).contains(wp_type@) {
                    r matches Ok(n) && n@ == name@
                } else {
                    r matches Err(ApplyRefusal::RendererTypeMismatch { renderer, ty })
                        && renderer@ == name@ && ty@ == wp_type@
                },
            },
            _ => match default_for_type {
                Some(d) => r matches Ok(n) && n@ == d@,
                None => r matches Err(ApplyRefusal::NoRendererForType(t)) && t@ == wp_type@,
            },
        },
{
    if let Some(name) = requested {
        if name.unicode_len() > 0 {
            return match named_types {
                None => Err(ApplyRefusal::RendererNotFound(name)),
                Some(types) => {
                    if contains_string(&types, wp_type) {
                        Ok(name)
                    } else {
                        Err(
                            ApplyRefusal::RendererTypeMismatch {
                                renderer: name,
                                ty: String::from_str(wp_type),
                            },
                        )
                    }
                },
            };
        }
    }
    match default_for_type {
        Some(d) => Ok(d),
        None => Err(ApplyRefusal::NoRendererForType(String::from_str(wp_type))),
    }
}

/// How an apply reaches its displays.
#[derive(Debug, Clone, Copy, PartialEq, Eq, Structural)]
pub enum ApplyRoute {
    /// The displays are stopped by their automatic rules: the assignment is
    /// kept and started when they play again.
    Retained,
    /// One renderer per display.
    Duplicated,
    /// One renderer for all the displays.
    Shared,
}

/// How an apply proceeds: refused when it needs a display and no display
/// is registered at all, or none of the requested ones is; otherwise kept
/// for later when the displays are automatically stopped, else with one
/// renderer per display or one shared renderer.
pub fn apply_route(
    require_display: bool,
    registered: usize,
    targets: usize,
    deferred: bool,
    duplicate: bool,
) -> (r: Result<ApplyRoute, ApplyRefusal>)
    ensures
        require_display && (registered == 0 || targets == 0) <==> r matches Err(
            ApplyRefusal::NoDisplayRegistered,
        ),
        !(require_display && (registered == 0 || targets == 0)) ==> r == Ok::<
            ApplyRoute,
            ApplyRefusal,
        >(
            if deferred {
                ApplyRoute::Retained
            } else if duplicate {
                ApplyRoute::Duplicated
            } else {
                ApplyRoute::Shared
            },
        ),
{
    if require_display && registered == 0 {
        return Err(ApplyRefusal::NoDisplayRegistered);
    }
    if require_display && targets == 0 {
        return Err(ApplyRefusal::NoDisplayRegistered);
    }
    if deferred {
        Ok(ApplyRoute::Retained)
    } else if duplicate {
        Ok(ApplyRoute::Duplicated)
    } else {
        Ok(ApplyRoute::Shared)
    }
}

} // verus!
