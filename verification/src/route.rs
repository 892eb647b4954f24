//! The site's routes, and parsing a request path back into one. A path
//! that names no route is the not-found route.

use vstd::prelude::*;

use crate::controllers::append_bytes;
use crate::santoka_haiku_2023_06_26::PublicationId;
use crate::text;

verus! {

/// Every page the site serves.
#[derive(Debug, Clone, Copy, PartialEq, Eq, Structural)]
pub enum Route {
    BuildTime,
    Home,
    NotFound,
    NonPreviewPoems { publication_id: PublicationId },
    Santoka,
    Work,
}

/// The path of a route. A non-preview-poems path carries the
/// publication id in canonical decimal (no sign, no leading zeros).
pub open spec fn route_path_spec(route: Route) -> Seq<u8> {
    match route {
        Route::BuildTime => text::str_bytes("/build-time"),
        Route::Home => text::str_bytes("/"),
        Route::NotFound => text::str_bytes("/not-found"),
        Route::NonPreviewPoems { publication_id } => text::str_bytes("/non-preview-poems/")
            + decimal_of(publication_id.0 as int),
        Route::Santoka => text::str_bytes("/santoka"),
        Route::Work => text::str_bytes("/work"),
    }
}

/// The canonical decimal digits of a number.
pub open spec fn decimal_of(n: int) -> Seq<u8>
    decreases n,
{
    if n < 0 {
        Seq::empty()
    } else if n < 10 {
        seq![(n + 48) as u8]
    } else {
        decimal_of(n / 10).push((n % 10 + 48) as u8)
    }
}

/// `format_u64` produces exactly the canonical decimal digits.
pub proof fn lemma_format_is_decimal(s: Seq<u8>, n: int)
    requires
        0 <= n,
        s.len() > 0,
        text::all_digits(s),
        text::dec_value(s) == n,
        s[0] == 48 ==> n == 0 && s.len() == 1,
    ensures
        s == decimal_of(n),
    decreases s.len(),
{
    if s.len() == 1 {
        assert(s.drop_last() =~= Seq::<u8>::empty());
        assert(text::dec_value(Seq::<u8>::empty()) == 0);
        assert(text::dec_value(s) == text::dec_value(s.drop_last()) * 10 + (s.last() - 48));
        assert(s.last() == s[0]);
        assert(n == s[0] - 48);
        assert(s =~= seq![(n + 48) as u8]);
    } else {
        let head = s.drop_last();
        assert(text::all_digits(head));
        assert(n == text::dec_value(head) * 10 + (s.last() - 48));
        lemma_dec_value_digits_positive(head);
        assert(text::dec_value(head) >= 1) by {
            if text::dec_value(head) == 0 {
                lemma_dec_value_zero_means_zeros(head);
                assert(head[0] == 48);
                assert(s[0] == 48);
            }
        }
        assert(n >= 10) by (nonlinear_arith)
            requires
                n == text::dec_value(head) * 10 + (s.last() - 48),
                text::dec_value(head) >= 1,
                s.last() >= 48,
        ;
        assert(n / 10 == text::dec_value(head) && n % 10 == s.last() - 48) by {
            vstd::arithmetic::div_mod::lemma_fundamental_div_mod_converse(
                n,
                10,
                text::dec_value(head),
                s.last() - 48,
            );
        }
        lemma_format_is_decimal(head, text::dec_value(head));
        assert(s =~= head.push(s.last()));
    }
}

proof fn lemma_dec_value_digits_positive(s: Seq<u8>)
    requires
        text::all_digits(s),
    ensures
        text::dec_value(s) >= 0,
    decreases s.len(),
{
    if s.len() > 0 {
        assert(text::all_digits(s.drop_last()));
        lemma_dec_value_digits_positive(s.drop_last());
        assert(text::dec_value(s.drop_last()) * 10 >= 0) by (nonlinear_arith)
            requires
                text::dec_value(s.drop_last()) >= 0,
        ;
    }
}

proof fn lemma_dec_value_zero_means_zeros(s: Seq<u8>)
    requires
        text::all_digits(s),
        s.len() > 0,
        text::dec_value(s) == 0,
    ensures
        s[0] == 48,
    decreases s.len(),
{
    let head = s.drop_last();
    assert(text::all_digits(head));
    lemma_dec_value_digits_positive(head);
    assert(text::dec_value(head) * 10 >= 0 && (text::dec_value(head) >= 1
        ==> text::dec_value(head) * 10 >= 10)) by (nonlinear_arith)
        requires
            text::dec_value(head) >= 0,
    ;
    if s.len() == 1 {
        assert(s[0] == 48);
    } else {
        assert(text::dec_value(head) == 0);
        lemma_dec_value_zero_means_zeros(head);
        assert(s[0] == head[0]);
    }
}

/// Which route a path names, given the publication ids the site knows:
/// the fixed paths, or a non-preview-poems path whose id is one of
/// them; anything else is not found.
pub open spec fn route_parse_spec(path: Seq<u8>, ids: Seq<PublicationId>) -> Route {
    if path == route_path_spec(Route::BuildTime) {
        Route::BuildTime
    } else if path == route_path_spec(Route::Home) {
        Route::Home
    } else if path == route_path_spec(Route::NotFound) {
        Route::NotFound
    } else if path == route_path_spec(Route::Santoka) {
        Route::Santoka
    } else if path == route_path_spec(Route::Work) {
        Route::Work
    } else if exists|i: int|
        0 <= i < ids.len() && path == route_path_spec(
            Route::NonPreviewPoems { publication_id: ids[i] },
        ) {
        Route::NonPreviewPoems {
            publication_id: choose|id: PublicationId|
                ids.contains(id) && path == route_path_spec(
                    Route::NonPreviewPoems { publication_id: id },
                ),
        }
    } else {
        Route::NotFound
    }
}

impl Route {
    /// The path this route is served under.
    pub fn to_path(&self) -> (r: Vec<u8>)
        ensures
            r@ =~= route_path_spec(*self),
    {
        proof {
            reveal_strlit("/build-time");
            reveal_strlit("/");
            reveal_strlit("/not-found");
            reveal_strlit("/non-preview-poems/");
            reveal_strlit("/santoka");
            reveal_strlit("/work");
        }
        let mut r: Vec<u8> = Vec::new();
        match self {
            Route::BuildTime => append_bytes(&mut r, text::lit_bytes("/build-time")),
            Route::Home => append_bytes(&mut r, text::lit_bytes("/")),
            Route::NotFound => append_bytes(&mut r, text::lit_bytes("/not-found")),
            Route::NonPreviewPoems { publication_id } => {
                append_bytes(&mut r, text::lit_bytes("/non-preview-poems/"));
                let digits = text::format_u64(publication_id.0 as u64);
                proof {
                    lemma_format_is_decimal(digits@, publication_id.0 as int);
                }
                append_bytes(&mut r, digits.as_slice());
            },
            Route::Santoka => append_bytes(&mut r, text::lit_bytes("/santoka")),
            Route::Work => append_bytes(&mut r, text::lit_bytes("/work")),
        }
        r
    }

    /// Parses a request path against the known publication ids.
    pub fn parse_path(path: &[u8], publication_ids: &Vec<PublicationId>) -> (r: Route)
        ensures
            r == route_parse_spec(path@, publication_ids@),
    {
        proof {
            reveal_strlit("/build-time");
            reveal_strlit("/");
            reveal_strlit("/not-found");
            reveal_strlit("/non-preview-poems/");
            reveal_strlit("/santoka");
            reveal_strlit("/work");
        }
        if text::bytes_eq(path, text::lit_bytes("/build-time")) {
            return Route::BuildTime;
        }
        if text::bytes_eq(path, text::lit_bytes("/")) {
            return Route::Home;
        }
        if text::bytes_eq(path, text::lit_bytes("/not-found")) {
            return Route::NotFound;
        }
        if text::bytes_eq(path, text::lit_bytes("/santoka")) {
            return Route::Santoka;
        }
        if text::bytes_eq(path, text::lit_bytes("/work")) {
            return Route::Work;
        }
        let mut i: usize = 0;
        while i < publication_ids.len()
            invariant
                0 <= i <= publication_ids@.len(),
                path@ != route_path_spec(Route::BuildTime),
                path@ != route_path_spec(Route::Home),
                path@ != route_path_spec(Route::NotFound),
                path@ != route_path_spec(Route::Santoka),
                path@ != route_path_spec(Route::Work),
                forall|j: int|
                    0 <= j < i ==> path@ != route_path_spec(
                        Route::NonPreviewPoems { publication_id: #[trigger] publication_ids@[j] },
                    ),
            decreases publication_ids@.len() - i,
        {
            let candidate = Route::NonPreviewPoems { publication_id: publication_ids[i] };
            let candidate_path = candidate.to_path();
            if text::bytes_eq(path, candidate_path.as_slice()) {
                proof {
                    assert(publication_ids@.contains(publication_ids@[i as int]));
                    let id = choose|id: PublicationId|
                        publication_ids@.contains(id) && path@ == route_path_spec(
                            Route::NonPreviewPoems { publication_id: id },
                        );
                    lemma_route_path_injective_on_ids(path@, id, publication_ids@[i as int]);
                }
                return candidate;
            }
            i = i + 1;
        }
        proof {
            if exists|w: int|
                0 <= w < publication_ids@.len() && path@ == route_path_spec(
                    Route::NonPreviewPoems { publication_id: publication_ids@[w] },
                ) {
                let w = choose|w: int|
                    0 <= w < publication_ids@.len() && path@ == route_path_spec(
                        Route::NonPreviewPoems { publication_id: publication_ids@[w] },
                    );
                assert(false);
            }
        }
        Route::NotFound
    }
}

/// Two publication ids with the same path are the same id: the decimal
/// form is canonical.
proof fn lemma_route_path_injective_on_ids(path: Seq<u8>, a: PublicationId, b: PublicationId)
    requires
        path == route_path_spec(Route::NonPreviewPoems { publication_id: a }),
        path == route_path_spec(Route::NonPreviewPoems { publication_id: b }),
    ensures
        a == b,
{
    let prefix = text::str_bytes("/non-preview-poems/");
    let da = decimal_of(a.0 as int);
    let db = decimal_of(b.0 as int);
    assert(prefix + da == prefix + db);
    assert(da =~= (prefix + da).skip(prefix.len() as int));
    assert(db =~= (prefix + db).skip(prefix.len() as int));
    lemma_decimal_injective(a.0 as int, b.0 as int);
}

/// Distinct numbers have distinct canonical decimals.
proof fn lemma_decimal_injective(a: int, b: int)
    requires
        0 <= a,
        0 <= b,
        decimal_of(a) == decimal_of(b),
    ensures
        a == b,
    decreases a + b,
{
    lemma_decimal_shape(a);
    lemma_decimal_shape(b);
    if a < 10 && b < 10 {
        assert(decimal_of(a)[0] == a + 48 && decimal_of(b)[0] == b + 48);
    } else if a < 10 {
        assert(decimal_of(b).len() >= 2 && decimal_of(a).len() == 1);
    } else if b < 10 {
        assert(decimal_of(a).len() >= 2 && decimal_of(b).len() == 1);
    } else {
        assert(decimal_of(a).drop_last() =~= decimal_of(a / 10));
        assert(decimal_of(b).drop_last() =~= decimal_of(b / 10));
        lemma_decimal_injective(a / 10, b / 10);
        assert(decimal_of(a).last() == a % 10 + 48);
        assert(decimal_of(b).last() == b % 10 + 48);
        assert(a == (a / 10) * 10 + a % 10) by (nonlinear_arith);
        assert(b == (b / 10) * 10 + b % 10) by (nonlinear_arith);
    }
}

proof fn lemma_decimal_shape(n: int)
    requires
        0 <= n,
    ensures
        n < 10 ==> decimal_of(n).len() == 1,
        n >= 10 ==> decimal_of(n).len() >= 2,
    decreases n,
{
    if n >= 10 {
        lemma_decimal_shape(n / 10);
    }
}

} // verus!
