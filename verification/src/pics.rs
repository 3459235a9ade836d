//! Product info, depot keys and free licenses.

use vstd::prelude::*;

use crate::error::{Error, ErrorView};
use crate::proto::{items_of, items_or_empty, value_or};
use crate::text::{decimal, joined, numbered, push_decimal, push_joined};
use crate::wire::{signed, signed_32};

verus! {

/// Product info of an app.
#[derive(Debug, Clone)]
pub struct AppProductInfo {
    pub appid: u32,
    pub change_number: u32,
    pub buffer: Vec<u8>,
}

/// Product info of a package.
#[derive(Debug, Clone)]
pub struct PackageProductInfo {
    pub packageid: u32,
    pub change_number: u32,
    pub buffer: Vec<u8>,
}

/// Product info of apps and packages.
#[derive(Debug)]
pub struct ProductInfoResponse {
    pub apps: Vec<AppProductInfo>,
    pub unknown_appids: Vec<u32>,
    pub packages: Vec<PackageProductInfo>,
    pub unknown_packageids: Vec<u32>,
}

/// Product info over mathematical values: the number, the change number and
/// the content.
pub type ProductView = (u32, u32, Seq<u8>);

/// A [`ProductInfoResponse`] over mathematical values.
#[verifier::ext_equal]
pub struct ProductInfoView {
    pub apps: Seq<ProductView>,
    pub unknown_appids: Seq<u32>,
    pub packages: Seq<ProductView>,
    pub unknown_packageids: Seq<u32>,
}

/// Apps over mathematical values.
pub open spec fn app_views(apps: Seq<AppProductInfo>) -> Seq<ProductView> {
    apps.map_values(|app: AppProductInfo| (app.appid, app.change_number, app.buffer@))
}

/// Packages over mathematical values.
pub open spec fn package_views(packages: Seq<PackageProductInfo>) -> Seq<ProductView> {
    packages.map_values(
        |package: PackageProductInfo| (package.packageid, package.change_number, package.buffer@),
    )
}

impl View for ProductInfoResponse {
    type V = ProductInfoView;

    open spec fn view(&self) -> ProductInfoView {
        ProductInfoView {
            apps: app_views(self.apps@),
            unknown_appids: self.unknown_appids@,
            packages: package_views(self.packages@),
            unknown_packageids: self.unknown_packageids@,
        }
    }
}

/// One product in an answer of the CM.
#[derive(Debug, Clone)]
pub struct RawProduct {
    pub id: Option<u32>,
    pub change_number: Option<u32>,
    pub buffer: Option<Vec<u8>>,
}

/// One answer of the CM to a request for product info, of which there may be
/// several.
#[derive(Debug)]
pub struct ProductInfoPart {
    pub apps: Vec<RawProduct>,
    pub unknown_appids: Vec<u32>,
    pub packages: Vec<RawProduct>,
    pub unknown_packageids: Vec<u32>,
    pub response_pending: Option<bool>,
}

/// What a product of an answer says, zero or empty where it leaves something
/// out.
pub open spec fn product_of(raw: RawProduct) -> ProductView {
    (
        value_or(raw.id, 0),
        value_or(raw.change_number, 0),
        value_or(items_of(raw.buffer), Seq::empty()),
    )
}

/// What the products of an answer say.
pub open spec fn products_of(raw: Seq<RawProduct>) -> Seq<ProductView> {
    raw.map_values(|product: RawProduct| product_of(product))
}

/// What is known after one more answer.
pub open spec fn joined_info(info: ProductInfoView, part: ProductInfoPart) -> ProductInfoView {
    ProductInfoView {
        apps: info.apps + products_of(part.apps@),
        unknown_appids: info.unknown_appids + part.unknown_appids@,
        packages: info.packages + products_of(part.packages@),
        unknown_packageids: info.unknown_packageids + part.unknown_packageids@,
    }
}

/// Nothing is known.
pub open spec fn no_info() -> ProductInfoView {
    ProductInfoView {
        apps: Seq::empty(),
        unknown_appids: Seq::empty(),
        packages: Seq::empty(),
        unknown_packageids: Seq::empty(),
    }
}

/// What is known after these answers.
pub open spec fn collected(parts: Seq<ProductInfoPart>) -> ProductInfoView
    decreases parts.len(),
{
    if parts.len() == 0 {
        no_info()
    } else {
        joined_info(collected(parts.drop_last()), parts.last())
    }
}

/// `part` is contained in `whole`, in one piece.
pub open spec fn holds<T>(whole: Seq<T>, part: Seq<T>) -> bool {
    exists|at: int|
        0 <= at <= whole.len() - part.len() && #[trigger] whole.subrange(at, at + part.len())
            == part
}

proof fn lemma_holds_more<T>(whole: Seq<T>, part: Seq<T>, more: Seq<T>)
    requires
        holds(whole, part),
    ensures
        holds(whole + more, part),
{
    let at = choose|at: int|
        0 <= at <= whole.len() - part.len() && #[trigger] whole.subrange(at, at + part.len())
            == part;
    assert((whole + more).subrange(at, at + part.len()) =~= part);
}

proof fn lemma_holds_last<T>(whole: Seq<T>, part: Seq<T>)
    ensures
        holds(whole + part, part),
{
    let at = whole.len() as int;
    assert((whole + part).subrange(at, at + part.len()) =~= part);
}

/// What one answer says is part of what all the answers together say,
/// whichever answer it is: no part of an answer in several parts is lost.
pub proof fn no_answer_is_lost(parts: Seq<ProductInfoPart>, i: int)
    requires
        0 <= i < parts.len(),
    ensures
        holds(collected(parts).apps, products_of(parts[i].apps@)),
        holds(collected(parts).unknown_appids, parts[i].unknown_appids@),
        holds(collected(parts).packages, products_of(parts[i].packages@)),
        holds(collected(parts).unknown_packageids, parts[i].unknown_packageids@),
    decreases parts.len(),
{
    let fewer = parts.drop_last();
    let known = collected(fewer);
    let last = parts.last();
    if i < fewer.len() {
        no_answer_is_lost(fewer, i);
        lemma_holds_more(known.apps, products_of(parts[i].apps@), products_of(last.apps@));
        lemma_holds_more(known.unknown_appids, parts[i].unknown_appids@, last.unknown_appids@);
        lemma_holds_more(
            known.packages,
            products_of(parts[i].packages@),
            products_of(last.packages@),
        );
        lemma_holds_more(
            known.unknown_packageids,
            parts[i].unknown_packageids@,
            last.unknown_packageids@,
        );
    } else {
        lemma_holds_last(known.apps, products_of(last.apps@));
        lemma_holds_last(known.unknown_appids, last.unknown_appids@);
        lemma_holds_last(known.packages, products_of(last.packages@));
        lemma_holds_last(known.unknown_packageids, last.unknown_packageids@);
    }
}

/// Taking in an answer keeps what was known, in its place, and puts each app
/// and package of the answer behind it, field by field: number, change number
/// and content as the answer gives them, zero or nothing where it gives none.
pub proof fn answer_is_taken_in_field_by_field(
    before: ProductInfoResponse,
    part: ProductInfoPart,
    after: ProductInfoResponse,
)
    requires
        after@ == joined_info(before@, part),
    ensures
        after.apps@.len() == before.apps@.len() + part.apps@.len(),
        forall|i: int|
            0 <= i < before.apps@.len() ==> {
                &&& (#[trigger] after.apps@[i]).appid == before.apps@[i].appid
                &&& after.apps@[i].change_number == before.apps@[i].change_number
                &&& after.apps@[i].buffer@ == before.apps@[i].buffer@
            },
        forall|i: int|
            0 <= i < part.apps@.len() ==> is_taken_from(
                #[trigger] part.apps@[i],
                after.apps@[before.apps@.len() + i].appid,
                after.apps@[before.apps@.len() + i].change_number,
                after.apps@[before.apps@.len() + i].buffer@,
            ),
        after.packages@.len() == before.packages@.len() + part.packages@.len(),
        forall|i: int|
            0 <= i < before.packages@.len() ==> {
                &&& (#[trigger] after.packages@[i]).packageid == before.packages@[i].packageid
                &&& after.packages@[i].change_number == before.packages@[i].change_number
                &&& after.packages@[i].buffer@ == before.packages@[i].buffer@
            },
        forall|i: int|
            0 <= i < part.packages@.len() ==> is_taken_from(
                #[trigger] part.packages@[i],
                after.packages@[before.packages@.len() + i].packageid,
                after.packages@[before.packages@.len() + i].change_number,
                after.packages@[before.packages@.len() + i].buffer@,
            ),
        after.unknown_appids@ == before.unknown_appids@ + part.unknown_appids@,
        after.unknown_packageids@ == before.unknown_packageids@ + part.unknown_packageids@,
{
    let known = before.apps@.len() as int;
    assert(after@.apps == before@.apps + products_of(part.apps@));
    assert(after@.apps.len() == after.apps@.len());
    assert forall|i: int| 0 <= i < before.apps@.len() implies {
        &&& (#[trigger] after.apps@[i]).appid == before.apps@[i].appid
        &&& after.apps@[i].change_number == before.apps@[i].change_number
        &&& after.apps@[i].buffer@ == before.apps@[i].buffer@
    } by {
        assert(after@.apps[i] == before@.apps[i]);
    }
    assert forall|i: int| 0 <= i < part.apps@.len() implies is_taken_from(
        #[trigger] part.apps@[i],
        after.apps@[known + i].appid,
        after.apps@[known + i].change_number,
        after.apps@[known + i].buffer@,
    ) by {
        assert(after@.apps[known + i] == products_of(part.apps@)[i]);
    }
    let known = before.packages@.len() as int;
    assert(after@.packages == before@.packages + products_of(part.packages@));
    assert(after@.packages.len() == after.packages@.len());
    assert forall|i: int| 0 <= i < before.packages@.len() implies {
        &&& (#[trigger] after.packages@[i]).packageid == before.packages@[i].packageid
        &&& after.packages@[i].change_number == before.packages@[i].change_number
        &&& after.packages@[i].buffer@ == before.packages@[i].buffer@
    } by {
        assert(after@.packages[i] == before@.packages[i]);
    }
    assert forall|i: int| 0 <= i < part.packages@.len() implies is_taken_from(
        #[trigger] part.packages@[i],
        after.packages@[known + i].packageid,
        after.packages@[known + i].change_number,
        after.packages@[known + i].buffer@,
    ) by {
        assert(after@.packages[known + i] == products_of(part.packages@)[i]);
    }
}

/// Number, change number and content are those of the product, zero or nothing
/// where it gives none.
pub open spec fn is_taken_from(raw: RawProduct, id: u32, change_number: u32, buffer: Seq<u8>) -> bool {
    &&& match raw.id {
        Some(given) => id == given,
        None => id == 0,
    }
    &&& match raw.change_number {
        Some(given) => change_number == given,
        None => change_number == 0,
    }
    &&& match raw.buffer {
        Some(given) => buffer == given@,
        None => buffer.len() == 0,
    }
}

impl Default for ProductInfoResponse {
    fn default() -> (info: ProductInfoResponse)
        ensures
            info@ == no_info(),
    {
        let info: ProductInfoResponse = ProductInfoResponse {
            apps: Vec::new(),
            unknown_appids: Vec::new(),
            packages: Vec::new(),
            unknown_packageids: Vec::new(),
        };
        assert(info@ =~= no_info());
        info
    }
}

fn buffer_of(raw: RawProduct) -> (r: (u32, u32, Vec<u8>))
    ensures
        (r.0, r.1, r.2@) == product_of(raw),
{
    (
        match raw.id {
            Some(id) => id,
            None => 0,
        },
        match raw.change_number {
            Some(n) => n,
            None => 0,
        },
        items_or_empty(raw.buffer),
    )
}

impl ProductInfoResponse {
    /// Takes in one answer of the CM and says whether another is to come.
    pub fn absorb(&mut self, part: ProductInfoPart) -> (more: bool)
        ensures
            final(self)@ == joined_info(old(self)@, part),
            more == value_or(part.response_pending, false),
    {
        let ghost raw_apps = part.apps@;
        let ghost raw_packages = part.packages@;
        let ghost unknown_apps = part.unknown_appids@;
        let ghost unknown_packages = part.unknown_packageids@;
        assert(old(self)@.apps + products_of(raw_apps.take(0)) =~= old(self)@.apps);
        for raw in it: part.apps
            invariant
                it.seq() == raw_apps,
                app_views(self.apps@) == old(self)@.apps + products_of(
                    raw_apps.take(it.index() as int),
                ),
                self.packages == old(self).packages,
                self.unknown_appids == old(self).unknown_appids,
                self.unknown_packageids == old(self).unknown_packageids,
        {
            let ghost before = self.apps@;
            let (appid, change_number, buffer): (u32, u32, Vec<u8>) = buffer_of(raw);
            self.apps.push(AppProductInfo { appid, change_number, buffer });
            proof {
                let i = it.index() as int;
                assert(app_views(self.apps@) =~= app_views(before).push(product_of(raw_apps[i])));
                assert(products_of(raw_apps.take(i + 1)) =~= products_of(raw_apps.take(i)).push(
                    product_of(raw_apps[i]),
                ));
            }
        }
        assert(raw_apps.take(raw_apps.len() as int) =~= raw_apps);
        extend(&mut self.unknown_appids, &part.unknown_appids);
        assert(old(self)@.packages + products_of(raw_packages.take(0)) =~= old(self)@.packages);
        for raw in it: part.packages
            invariant
                it.seq() == raw_packages,
                package_views(self.packages@) == old(self)@.packages + products_of(
                    raw_packages.take(it.index() as int),
                ),
                app_views(self.apps@) == old(self)@.apps + products_of(raw_apps),
                self.unknown_appids@ == old(self).unknown_appids@ + unknown_apps,
                self.unknown_packageids == old(self).unknown_packageids,
        {
            let ghost before = self.packages@;
            let (packageid, change_number, buffer): (u32, u32, Vec<u8>) = buffer_of(raw);
            self.packages.push(PackageProductInfo { packageid, change_number, buffer });
            proof {
                let i = it.index() as int;
                assert(package_views(self.packages@) =~= package_views(before).push(
                    product_of(raw_packages[i]),
                ));
                assert(products_of(raw_packages.take(i + 1)) =~= products_of(
                    raw_packages.take(i),
                ).push(product_of(raw_packages[i])));
            }
        }
        assert(raw_packages.take(raw_packages.len() as int) =~= raw_packages);
        extend(&mut self.unknown_packageids, &part.unknown_packageids);
        match part.response_pending {
            Some(pending) => pending,
            None => false,
        }
    }
}

fn extend(items: &mut Vec<u32>, more: &Vec<u32>)
    ensures
        final(items)@ == old(items)@ + more@,
{
    items.extend_from_slice(more.as_slice());
    assert(items@ =~= old(items)@ + more@);
}

/// One token in an answer of the CM.
#[derive(Debug, Clone, Copy)]
pub struct RawToken {
    pub id: Option<u32>,
    pub access_token: Option<u64>,
}

/// The tokens that name both what they are for and themselves.
pub open spec fn complete_tokens(raw: Seq<RawToken>) -> Seq<(u32, u64)>
    decreases raw.len(),
{
    if raw.len() == 0 {
        Seq::empty()
    } else {
        let fewer = complete_tokens(raw.drop_last());
        match (raw.last().id, raw.last().access_token) {
            (Some(id), Some(token)) => fewer.push((id, token)),
            _ => fewer,
        }
    }
}

/// The tokens of an answer, without those that leave something out.
pub fn access_tokens(raw: &Vec<RawToken>) -> (tokens: Vec<(u32, u64)>)
    ensures
        tokens@ == complete_tokens(raw@),
{
    let mut tokens: Vec<(u32, u64)> = Vec::new();
    for i in 0..raw.len()
        invariant
            tokens@ == complete_tokens(raw@.take(i as int)),
    {
        proof {
            assert(raw@.take(i + 1).drop_last() =~= raw@.take(i as int));
            assert(raw@.take(i + 1).last() == raw@[i as int]);
        }
        match (raw[i].id, raw[i].access_token) {
            (Some(id), Some(token)) => tokens.push((id, token)),
            _ => {},
        }
    }
    assert(raw@.take(raw@.len() as int) =~= raw@);
    tokens
}

/// Of the tokens of an answer those are kept that name both what they are for
/// and themselves, in their order, and no others.
pub proof fn complete_tokens_are_kept(raw: Seq<RawToken>, i: int)
    requires
        0 <= i < raw.len(),
    ensures
        raw[i].id is Some && raw[i].access_token is Some ==> complete_tokens(raw).contains(
            (raw[i].id->0, raw[i].access_token->0),
        ),
        complete_tokens(raw).len() <= raw.len(),
        forall|k: int|
            0 <= k < complete_tokens(raw).len() ==> raw.contains(
                RawToken {
                    id: Some((#[trigger] complete_tokens(raw)[k]).0),
                    access_token: Some(complete_tokens(raw)[k].1),
                },
            ),
    decreases raw.len(),
{
    let fewer = raw.drop_last();
    let kept = complete_tokens(fewer);
    let all = complete_tokens(raw);
    if fewer.len() > 0 {
        complete_tokens_are_kept(
            fewer,
            if i < fewer.len() {
                i
            } else {
                0
            },
        );
    }
    assert(raw.last() == raw[raw.len() - 1]);
    if raw[i].id is Some && raw[i].access_token is Some {
        let pair = (raw[i].id->0, raw[i].access_token->0);
        if i < fewer.len() {
            assert(kept.contains(pair));
            let k = choose|k: int| 0 <= k < kept.len() && kept[k] == pair;
            assert(all[k] == pair);
        } else {
            assert(all.last() == pair);
        }
    }
    assert forall|k: int| 0 <= k < all.len() implies raw.contains(
        RawToken { id: Some((#[trigger] all[k]).0), access_token: Some(all[k].1) },
    ) by {
        let token = RawToken { id: Some(all[k].0), access_token: Some(all[k].1) };
        if k < kept.len() {
            assert(kept[k] == all[k]);
            assert(fewer.contains(token));
            let j = choose|j: int| 0 <= j < fewer.len() && fewer[j] == token;
            assert(raw[j] == token);
        } else {
            assert(raw[raw.len() - 1] == token);
        }
    }
}

/// The first token for `id`.
pub open spec fn token_for(tokens: Seq<(u32, u64)>, id: u32) -> Option<u64>
    decreases tokens.len(),
{
    if tokens.len() == 0 {
        None
    } else if tokens[0].0 == id {
        Some(tokens[0].1)
    } else {
        token_for(tokens.drop_first(), id)
    }
}

/// Asks for the product info of one app or package.
#[derive(Debug, Clone, Copy)]
pub struct ProductRequest {
    pub id: Option<u32>,
    pub access_token: Option<u64>,
}

/// Asks for product info.
#[derive(Debug)]
pub struct ProductInfoRequest {
    pub apps: Vec<ProductRequest>,
    pub packages: Vec<ProductRequest>,
    pub meta_data_only: Option<bool>,
    pub single_response: Option<bool>,
}

/// `requests` asks for these, in this order, each with the first token for it.
pub open spec fn asks_for(
    requests: Seq<ProductRequest>,
    ids: Seq<u32>,
    tokens: Seq<(u32, u64)>,
) -> bool {
    requests == ids.map_values(
        |id: u32| ProductRequest { id: Some(id), access_token: token_for(tokens, id) },
    )
}

/// Each app or package is asked for in its turn, with the first token that was
/// given for it; without one where none was.
pub proof fn requests_carry_their_tokens(
    requests: Seq<ProductRequest>,
    ids: Seq<u32>,
    tokens: Seq<(u32, u64)>,
    i: int,
)
    requires
        asks_for(requests, ids, tokens),
        0 <= i < ids.len(),
    ensures
        requests.len() == ids.len(),
        requests[i].id == Some(ids[i]),
        match requests[i].access_token {
            Some(token) => exists|k: int|
                0 <= k < tokens.len() && #[trigger] tokens[k] == (ids[i], token) && forall|j: int|
                    0 <= j < k ==> (#[trigger] tokens[j]).0 != ids[i],
            None => forall|j: int| 0 <= j < tokens.len() ==> (#[trigger] tokens[j]).0 != ids[i],
        },
{
    lemma_first_token(tokens, ids[i]);
}

proof fn lemma_first_token(tokens: Seq<(u32, u64)>, id: u32)
    ensures
        match token_for(tokens, id) {
            Some(token) => exists|k: int|
                0 <= k < tokens.len() && #[trigger] tokens[k] == (id, token) && forall|j: int|
                    0 <= j < k ==> (#[trigger] tokens[j]).0 != id,
            None => forall|j: int| 0 <= j < tokens.len() ==> (#[trigger] tokens[j]).0 != id,
        },
    decreases tokens.len(),
{
    if tokens.len() > 0 {
        let rest = tokens.drop_first();
        lemma_first_token(rest, id);
        if tokens[0].0 == id {
            assert(tokens[0] == (id, tokens[0].1));
        } else {
            match token_for(rest, id) {
                Some(token) => {
                    let k = choose|k: int|
                        0 <= k < rest.len() && #[trigger] rest[k] == (id, token) && forall|j: int|
                            0 <= j < k ==> (#[trigger] rest[j]).0 != id;
                    assert(tokens[k + 1] == (id, token));
                    assert forall|j: int| 0 <= j < k + 1 implies (#[trigger] tokens[j]).0 != id by {
                        if j > 0 {
                            assert(rest[j - 1].0 != id);
                        }
                    }
                },
                None => {
                    assert forall|j: int| 0 <= j < tokens.len() implies (#[trigger] tokens[j]).0
                        != id by {
                        if j > 0 {
                            assert(rest[j - 1].0 != id);
                        }
                    }
                },
            }
        }
    }
}

fn find_token(tokens: &Vec<(u32, u64)>, id: u32) -> (r: Option<u64>)
    ensures
        r == token_for(tokens@, id),
{
    assert(tokens@.skip(0) =~= tokens@);
    for i in 0..tokens.len()
        invariant
            token_for(tokens@, id) == token_for(tokens@.skip(i as int), id),
    {
        if tokens[i].0 == id {
            return Some(tokens[i].1);
        }
        assert(tokens@.skip(i as int).drop_first() =~= tokens@.skip(i + 1));
    }
    None
}

fn product_requests(ids: &[u32], tokens: &Vec<(u32, u64)>) -> (requests: Vec<ProductRequest>)
    ensures
        asks_for(requests@, ids@, tokens@),
{
    let mut requests: Vec<ProductRequest> = Vec::new();
    assert(requests@ =~= ids@.take(0).map_values(
        |id: u32| ProductRequest { id: Some(id), access_token: token_for(tokens@, id) },
    ));
    for i in 0..ids.len()
        invariant
            asks_for(requests@, ids@.take(i as int), tokens@),
    {
        requests.push(
            ProductRequest { id: Some(ids[i]), access_token: find_token(tokens, ids[i]) },
        );
        assert(requests@ =~= ids@.take(i + 1).map_values(
            |id: u32| ProductRequest { id: Some(id), access_token: token_for(tokens@, id) },
        ));
    }
    assert(ids@.take(ids@.len() as int) =~= ids@);
    requests
}

/// The request for the product info of apps and packages, each with the token
/// that the CM gave for it.
pub fn product_info_request(
    app_ids: &[u32],
    package_ids: &[u32],
    app_tokens: &Vec<(u32, u64)>,
    package_tokens: &Vec<(u32, u64)>,
) -> (r: ProductInfoRequest)
    ensures
        asks_for(r.apps@, app_ids@, app_tokens@),
        asks_for(r.packages@, package_ids@, package_tokens@),
        r.meta_data_only == Some(false),
        r.single_response == Some(false),
{
    ProductInfoRequest {
        apps: product_requests(app_ids, app_tokens),
        packages: product_requests(package_ids, package_tokens),
        meta_data_only: Some(false),
        single_response: Some(false),
    }
}

/// Why the CM refuses a depot key, by its result code.
pub open spec fn key_refusal(code: i32) -> Seq<char> {
    if code == 2 {
        "invalid depot/app combination"@
    } else if code == 5 {
        "access denied — account doesn't own this app/depot"@
    } else if code == 15 {
        "access denied — the account does not have a license for this app. If this is a free game, claim the free license on the Steam account first"@
    } else if code == 9 {
        "file not found — depot does not exist"@
    } else {
        "unexpected error"@
    }
}

/// The key of a depot, or why the CM refuses it.
pub fn depot_key_outcome(
    depot_id: u32,
    app_id: u32,
    eresult: Option<i32>,
    depot_encryption_key: Option<Vec<u8>>,
) -> (r: Result<Vec<u8>, Error>)
    ensures
        match r {
            Ok(key) => eresult == Some(1i32) && key@ == value_or(
                items_of(depot_encryption_key),
                Seq::empty(),
            ),
            Err(e) => eresult != Some(1i32) && e@ == (ErrorView::EResult {
                code: value_or(eresult, 2),
                context: "depot "@ + decimal(depot_id as nat) + " (app "@ + decimal(app_id as nat)
                    + ") decryption key: "@ + key_refusal(value_or(eresult, 2)),
            }),
        },
{
    let code: i32 = match eresult {
        Some(code) => code,
        None => 2,
    };
    if code != 1 {
        let reason: &str = if code == 2 {
            "invalid depot/app combination"
        } else if code == 5 {
            "access denied — account doesn't own this app/depot"
        } else if code == 15 {
            "access denied — the account does not have a license for this app. If this is a free game, claim the free license on the Steam account first"
        } else if code == 9 {
            "file not found — depot does not exist"
        } else {
            "unexpected error"
        };
        let mut context: String = numbered("depot ", depot_id as u64);
        context.append(" (app ");
        push_decimal(&mut context, app_id as u64);
        context.append(") decryption key: ");
        context.append(reason);
        return Err(Error::eresult(code, context));
    }
    Ok(items_or_empty(depot_encryption_key))
}

/// What a request for free licenses granted.
#[derive(Debug)]
pub struct FreeLicenseResponse {
    pub granted_appids: Vec<u32>,
    pub granted_packageids: Vec<u32>,
}

/// What a request for free licenses granted, or with which result code it was
/// refused.
pub fn free_license_outcome(
    app_ids: &[u32],
    eresult: Option<u32>,
    granted_appids: Vec<u32>,
    granted_packageids: Vec<u32>,
) -> (r: Result<FreeLicenseResponse, Error>)
    ensures
        match r {
            Ok(granted) => eresult == Some(1u32) && granted.granted_appids == granted_appids
                && granted.granted_packageids == granted_packageids,
            Err(e) => eresult != Some(1u32) && e@ == (ErrorView::EResult {
                code: signed_32(value_or(eresult, 2) as nat) as i32,
                context: "free license request for ["@ + joined(app_ids@, ", "@) + "]"@,
            }),
        },
{
    let code: u32 = match eresult {
        Some(code) => code,
        None => 2,
    };
    if code != 1 {
        let mut context: String = "free license request for [".to_string();
        push_joined(&mut context, app_ids, ", ");
        context.append("]");
        return Err(Error::eresult(signed(code), context));
    }
    Ok(FreeLicenseResponse { granted_appids, granted_packageids })
}

} // verus!
