//! The canister's plain HTTP endpoint, which serves the metrics.
use vstd::prelude::*;
use vstd::string::StrSliceExecFns;
use vstd::utf8::encode_utf8;

use crate::utils::metrics::{gather_metrics, metrics_text, Metrics};
use crate::utils::text::{str_eq, str_to_chars};

verus! {

/// An HTTP request as the platform hands it over.
pub struct HttpRequest {
    pub method: String,
    pub url: String,
    pub headers: Vec<(String, String)>,
    pub body: Vec<u8>,
}

/// An HTTP response.
pub struct HttpResponse {
    pub status_code: u16,
    pub headers: Vec<(String, String)>,
    pub body: Vec<u8>,
}

/// The part of `url` before its first `?`, or all of it.
pub open spec fn url_path(url: Seq<char>) -> Seq<char>
    decreases url.len(),
{
    if url.len() == 0 {
        url
    } else if url[0] == '?' {
        seq![]
    } else {
        seq![url[0]] + url_path(url.drop_first())
    }
}

proof fn lemma_url_path_prefix(url: Seq<char>, k: int)
    requires
        0 <= k <= url.len(),
        forall|j: int| 0 <= j < k ==> url[j] != '?',
    ensures
        url_path(url) == url.subrange(0, k) + url_path(url.subrange(k, url.len() as int)),
    decreases k,
{
    if k > 0 {
        let d = url.drop_first();
        assert forall|j: int| 0 <= j < k - 1 implies d[j] != '?' by {
            assert(d[j] == url[j + 1]);
        }
        lemma_url_path_prefix(d, k - 1);
        assert(d.subrange(k - 1, d.len() as int) =~= url.subrange(k, url.len() as int));
        assert(seq![url[0]] + d.subrange(0, k - 1) =~= url.subrange(0, k));
        assert(url[0] != '?');
        assert(url_path(url) == seq![url[0]] + url_path(d));
        let x = url_path(url.subrange(k, url.len() as int));
        assert(seq![url[0]] + (d.subrange(0, k - 1) + x) =~= (seq![url[0]] + d.subrange(0, k - 1)) + x);
    } else {
        assert(url.subrange(0, url.len() as int) =~= url);
        assert(url.subrange(0, 0) + url_path(url) =~= url_path(url));
    }
}

/// The path of `url`, as `url_path` gives it.
fn path_of(url: &str) -> (res: Vec<char>)
    ensures
        res@ == url_path(url@),
{
    let cs = str_to_chars(url);
    let mut k: usize = 0;
    while k < cs.len() && cs[k] != '?'
        invariant
            cs@ == url@,
            k <= cs@.len(),
            forall|j: int| 0 <= j < k ==> cs@[j] != '?',
        decreases cs@.len() - k,
    {
        k = k + 1;
    }
    proof {
        lemma_url_path_prefix(url@, k as int);
        let rest = url@.subrange(k as int, url@.len() as int);
        if k < cs@.len() {
            assert(rest[0] == '?');
        } else {
            assert(rest.len() == 0);
        }
        assert(url_path(rest) =~= Seq::<char>::empty());
    }
    let mut res = cs;
    res.truncate(k);
    assert(res@ =~= url@.subrange(0, k as int) + Seq::<char>::empty());
    res
}

/// The path that serves the metrics.
pub open spec fn metrics_path() -> Seq<char> {
    seq!['/', 'm', 'e', 't', 'r', 'i', 'c', 's']
}

/// Answers a request: the metrics, as plain text, for the path `/metrics`
/// (whatever query follows); `404 Not Found` for any other path.
pub fn http_request(req: &HttpRequest, metrics: &Metrics) -> (res: HttpResponse)
    requires
        metrics.wf(),
    ensures
        url_path(req.url@) == metrics_path() ==> {
            &&& res.status_code == 200
            &&& res.headers@.len() == 1
            &&& res.headers@[0].0@ == "Content-Type"@
            &&& res.headers@[0].1@ == "text/plain"@
            &&& res.body@ == encode_utf8(metrics_text(metrics))
        },
        url_path(req.url@) != metrics_path() ==> {
            &&& res.status_code == 404
            &&& res.headers@.len() == 0
            &&& res.body@ == encode_utf8("404 Not Found"@)
        },
{
    let path = path_of(req.url.as_str());
    let target: Vec<char> = vec!['/', 'm', 'e', 't', 'r', 'i', 'c', 's'];
    let mut same = path.len() == target.len();
    let mut i: usize = 0;
    while same && i < path.len()
        invariant
            path@ == url_path(req.url@),
            target@ == metrics_path(),
            i <= path@.len(),
            same ==> path@.len() == target@.len(),
            same ==> forall|j: int| 0 <= j < i ==> path@[j] == target@[j],
            !same ==> path@ != target@,
        decreases path@.len() - i,
    {
        if path[i] != target[i] {
            same = false;
        }
        i = i + 1;
    }
    if same {
        assert(path@ =~= target@);
        let mut headers: Vec<(String, String)> = Vec::new();
        headers.push((String::from_str("Content-Type"), String::from_str("text/plain")));
        HttpResponse { status_code: 200, headers, body: gather_metrics(metrics) }
    } else {
        HttpResponse { status_code: 404, headers: Vec::new(), body: "404 Not Found".as_bytes_vec() }
    }
}

} // verus!
