//! Per-download request decorations: extra headers and browser cookies.
use vstd::prelude::*;

use crate::text::{eq_ignore_case, str_eq_ignore_case};

verus! {

/// A cookie the browser extension captured for the download URL.
#[derive(Debug)]
pub struct Cookie {
    /// Cookie name.
    pub name: String,
    /// Cookie value.
    pub value: String,
}

impl Clone for Cookie {
    fn clone(&self) -> (r: Self)
        ensures
            r == *self,
    {
        Cookie { name: self.name.clone(), value: self.value.clone() }
    }
}

/// Headers and cookies applied to every request of one download.
#[derive(Debug)]
pub struct RequestExtras {
    /// Sent verbatim (Referer, Authorization …).
    pub headers: Vec<(String, String)>,
    /// Joined into one `Cookie` header.
    pub cookies: Vec<Cookie>,
}

impl Default for RequestExtras {
    fn default() -> (r: Self)
        ensures
            r.headers@.len() == 0,
            r.cookies@.len() == 0,
    {
        RequestExtras { headers: Vec::new(), cookies: Vec::new() }
    }
}

impl Clone for RequestExtras {
    fn clone(&self) -> (r: Self)
        ensures
            r.headers@ == self.headers@,
            r.cookies@ == self.cookies@,
    {
        RequestExtras { headers: clone_headers(&self.headers), cookies: clone_cookies(&self.cookies) }
    }
}

fn clone_headers(h: &Vec<(String, String)>) -> (r: Vec<(String, String)>)
    ensures
        r@ == h@,
{
    let mut r: Vec<(String, String)> = Vec::new();
    let mut i: usize = 0;
    while i < h.len()
        invariant
            i <= h.len(),
            r@ == h@.take(i as int),
        decreases h.len() - i,
    {
        let (k, v) = &h[i];
        r.push((k.clone(), v.clone()));
        i = i + 1;
        assert(r@ =~= h@.take(i as int));
    }
    assert(h@.take(h.len() as int) =~= h@);
    r
}

fn clone_cookies(c: &Vec<Cookie>) -> (r: Vec<Cookie>)
    ensures
        r@ == c@,
{
    let mut r: Vec<Cookie> = Vec::new();
    let mut i: usize = 0;
    while i < c.len()
        invariant
            i <= c.len(),
            r@ == c@.take(i as int),
        decreases c.len() - i,
    {
        r.push(c[i].clone());
        i = i + 1;
        assert(r@ =~= c@.take(i as int));
    }
    assert(c@.take(c.len() as int) =~= c@);
    r
}

/// Credentials a redirect to another origin must never carry along.
pub open spec fn is_credential_header(name: Seq<char>) -> bool {
    eq_ignore_case(name, "cookie"@) || eq_ignore_case(name, "authorization"@) || eq_ignore_case(
        name,
        "proxy-authorization"@,
    )
}

/// Headers the engine sets itself; a caller-supplied value is never sent.
pub open spec fn is_engine_header(name: Seq<char>) -> bool {
    eq_ignore_case(name, "range"@) || eq_ignore_case(name, "host"@) || eq_ignore_case(
        name,
        "content-length"@,
    )
}

/// `hs` without the headers whose name satisfies `drop`, order kept.
pub open spec fn headers_without(hs: Seq<(String, String)>, drop: spec_fn(Seq<char>) -> bool) -> Seq<
    (String, String),
>
    decreases hs.len(),
{
    if hs.len() == 0 {
        Seq::empty()
    } else if drop(hs.last().0@) {
        headers_without(hs.drop_last(), drop)
    } else {
        headers_without(hs.drop_last(), drop).push(hs.last())
    }
}

/// `name=value` pairs joined with `; `.
pub open spec fn joined_cookies(cs: Seq<Cookie>) -> Seq<char>
    decreases cs.len(),
{
    if cs.len() == 0 {
        Seq::empty()
    } else if cs.len() == 1 {
        cs[0].name@ + "="@ + cs[0].value@
    } else {
        joined_cookies(cs.drop_last()) + "; "@ + cs.last().name@ + "="@ + cs.last().value@
    }
}

/// The (name, value) pairs a request carries: the caller's headers except the
/// engine's own, then one `Cookie` header with every cookie when there are any.
pub open spec fn sent_headers_spec(x: RequestExtras) -> Seq<(Seq<char>, Seq<char>)> {
    let kept = headers_without(x.headers@, |n: Seq<char>| is_engine_header(n)).map_values(
        |h: (String, String)| (h.0@, h.1@),
    );
    if x.cookies@.len() == 0 {
        kept
    } else {
        kept.push(("cookie"@, joined_cookies(x.cookies@)))
    }
}

fn is_credential_name(k: &str) -> (r: bool)
    ensures
        r == is_credential_header(k@),
{
    str_eq_ignore_case(k, "cookie") || str_eq_ignore_case(k, "authorization") || str_eq_ignore_case(
        k,
        "proxy-authorization",
    )
}

fn is_engine_name(k: &str) -> (r: bool)
    ensures
        r == is_engine_header(k@),
{
    str_eq_ignore_case(k, "range") || str_eq_ignore_case(k, "host") || str_eq_ignore_case(
        k,
        "content-length",
    )
}

impl RequestExtras {
    /// Every (name, value) pair a request carries, in order: caller headers
    /// named `Range`, `Host` or `Content-Length` are skipped — the engine owns
    /// those — and the cookies go out as one `Cookie` header.
    pub fn sent_headers(&self) -> (r: Vec<(String, String)>)
        ensures
            r@.map_values(|h: (String, String)| (h.0@, h.1@)) == sent_headers_spec(*self),
    {
        let mut r: Vec<(String, String)> = Vec::new();
        let mut i: usize = 0;
        while i < self.headers.len()
            invariant
                i <= self.headers.len(),
                r@ == headers_without(
                    self.headers@.take(i as int),
                    |n: Seq<char>| is_engine_header(n),
                ),
            decreases self.headers.len() - i,
        {
            let (k, v) = &self.headers[i];
            proof {
                assert(self.headers@.take(i + 1).drop_last() =~= self.headers@.take(i as int));
            }
            if !is_engine_name(k.as_str()) {
                r.push((k.clone(), v.clone()));
            }
            i = i + 1;
        }
        assert(self.headers@.take(self.headers.len() as int) =~= self.headers@);
        let ghost kept = r@;
        if self.cookies.len() > 0 {
            let mut joined = String::new();
            let mut j: usize = 0;
            while j < self.cookies.len()
                invariant
                    j <= self.cookies.len(),
                    joined@ == joined_cookies(self.cookies@.take(j as int)),
                decreases self.cookies.len() - j,
            {
                proof {
                    assert(self.cookies@.take(j + 1).drop_last() =~= self.cookies@.take(j as int));
                    assert(self.cookies@.take(j + 1).last() == self.cookies@[j as int]);
                    if j == 0 {
                        assert(self.cookies@.take(1)[0] == self.cookies@[0]);
                    }
                }
                if j > 0 {
                    joined.append("; ");
                } else {
                    proof {
                        assert(self.cookies@.take(0) =~= Seq::<Cookie>::empty());
                    }
                }
                joined.append(self.cookies[j].name.as_str());
                joined.append("=");
                joined.append(self.cookies[j].value.as_str());
                j = j + 1;
                proof {
                    if j == 1 {
                        assert(joined@ =~= self.cookies@.take(1)[0].name@ + "="@ + self.cookies@.take(1)[0].value@);
                    }
                }
            }
            assert(self.cookies@.take(self.cookies.len() as int) =~= self.cookies@);
            r.push((String::from_str("cookie"), joined));
            assert(r@.map_values(|h: (String, String)| (h.0@, h.1@)) =~= kept.map_values(
                |h: (String, String)| (h.0@, h.1@),
            ).push(("cookie"@, joined_cookies(self.cookies@))));
        }
        r
    }

    /// A copy that carries no credentials: used when a redirect left the
    /// origin the caller's cookies and auth headers were meant for.
    pub fn without_credentials(&self) -> (r: RequestExtras)
        ensures
            r.headers@ == headers_without(self.headers@, |n: Seq<char>| is_credential_header(n)),
            r.cookies@.len() == 0,
    {
        let mut hs: Vec<(String, String)> = Vec::new();
        let mut i: usize = 0;
        while i < self.headers.len()
            invariant
                i <= self.headers.len(),
                hs@ == headers_without(
                    self.headers@.take(i as int),
                    |n: Seq<char>| is_credential_header(n),
                ),
            decreases self.headers.len() - i,
        {
            let (k, v) = &self.headers[i];
            proof {
                assert(self.headers@.take(i + 1).drop_last() =~= self.headers@.take(i as int));
            }
            if !is_credential_name(k.as_str()) {
                hs.push((k.clone(), v.clone()));
            }
            i = i + 1;
        }
        assert(self.headers@.take(self.headers.len() as int) =~= self.headers@);
        RequestExtras { headers: hs, cookies: Vec::new() }
    }
}

proof fn lemma_headers_without(hs: Seq<(String, String)>, drop: spec_fn(Seq<char>) -> bool)
    ensures
        forall|i: int|
            0 <= i < headers_without(hs, drop).len() ==> !drop(#[trigger] headers_without(hs, drop)[i].0@),
        forall|i: int|
            0 <= i < hs.len() && !drop(#[trigger] hs[i].0@) ==> headers_without(hs, drop).contains(hs[i]),
        headers_without(hs, drop).len() <= hs.len(),
    decreases hs.len(),
{
    if hs.len() > 0 {
        lemma_headers_without(hs.drop_last(), drop);
        let rest = headers_without(hs.drop_last(), drop);
        assert forall|i: int| 0 <= i < hs.len() && !drop(#[trigger] hs[i].0@) implies headers_without(hs, drop).contains(hs[i]) by {
            if i < hs.len() - 1 {
                assert(hs.drop_last()[i] == hs[i]);
                assert(rest.contains(hs[i]));
                let k = choose|k: int| 0 <= k < rest.len() && rest[k] == hs[i];
                if !drop(hs.last().0@) {
                    assert(headers_without(hs, drop)[k] == hs[i]);
                }
            } else {
                assert(headers_without(hs, drop).last() == hs[i]);
            }
        }
    }
}

/// The caller headers a request carries.
pub open spec fn caller_headers_sent(hs: Seq<(String, String)>) -> Seq<(String, String)> {
    headers_without(hs, |n: Seq<char>| is_engine_header(n))
}

/// The headers a copy without credentials keeps.
pub open spec fn headers_kept_cross_origin(hs: Seq<(String, String)>) -> Seq<(String, String)> {
    headers_without(hs, |n: Seq<char>| is_credential_header(n))
}

/// A request never carries a caller's `Range`, `Host` or `Content-Length`, carries
/// every other caller header, and sends a `Cookie` header exactly when there
/// are cookies.
pub proof fn requests_carry_only_caller_headers(x: RequestExtras)
    ensures
        forall|i: int|
            0 <= i < caller_headers_sent(x.headers@).len() ==> !is_engine_header(
                #[trigger] caller_headers_sent(x.headers@)[i].0@,
            ),
        forall|i: int|
            0 <= i < x.headers@.len() && !is_engine_header(#[trigger] x.headers@[i].0@)
                ==> caller_headers_sent(x.headers@).contains(x.headers@[i]),
        x.cookies@.len() > 0 <==> sent_headers_spec(x).len() > caller_headers_sent(x.headers@).len(),
{
    lemma_headers_without(x.headers@, |n: Seq<char>| is_engine_header(n));
}

/// A copy without credentials carries no cookie, no `Cookie`,
/// `Authorization` or `Proxy-Authorization` header, and every other header.
pub proof fn no_credentials_cross_origin(x: RequestExtras)
    ensures
        forall|i: int|
            0 <= i < headers_kept_cross_origin(x.headers@).len() ==> !is_credential_header(
                #[trigger] headers_kept_cross_origin(x.headers@)[i].0@,
            ),
        forall|i: int|
            0 <= i < x.headers@.len() && !is_credential_header(#[trigger] x.headers@[i].0@)
                ==> headers_kept_cross_origin(x.headers@).contains(x.headers@[i]),
{
    lemma_headers_without(x.headers@, |n: Seq<char>| is_credential_header(n));
}

proof fn lemma_without_twice(hs: Seq<(String, String)>, drop: spec_fn(Seq<char>) -> bool)
    ensures
        headers_without(headers_without(hs, drop), drop) == headers_without(hs, drop),
    decreases hs.len(),
{
    if hs.len() > 0 {
        let d = hs.drop_last();
        lemma_without_twice(d, drop);
        if !drop(hs.last().0@) {
            let w = headers_without(d, drop).push(hs.last());
            assert(w.drop_last() =~= headers_without(d, drop));
            assert(w.last() == hs.last());
        }
    }
}

/// Stripping credentials twice is stripping them once: a copy made for
/// another origin, redirected again, loses nothing more.
pub proof fn no_credentials_is_idempotent(x: RequestExtras)
    ensures
        headers_kept_cross_origin(headers_kept_cross_origin(x.headers@)) == headers_kept_cross_origin(
            x.headers@,
        ),
{
    lemma_without_twice(x.headers@, |n: Seq<char>| is_credential_header(n));
}

} // verus!
