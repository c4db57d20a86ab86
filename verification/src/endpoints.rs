//! Where the budget service keeps what belongs to one account of one budget.

use vstd::prelude::*;

verus! {

/// The service's interface for programs.
pub const API_URL: &'static str = "https://api.youneedabudget.com";

/// The service's pages for people.
pub const APP_URL: &'static str = "https://app.youneedabudget.com";

/// Which of the two is meant.
#[derive(Debug, Clone, Copy, PartialEq, Eq)]
pub enum UrlType {
    AppUrl,
    ApiUrl,
}

/// An account of a budget, both by their ids.
#[derive(Debug)]
pub struct BudgetAccount {
    pub budget_id: String,
    pub account_id: String,
}

/// The address of a budget in the interface for programs.
pub open spec fn budget_address(budget_id: Seq<char>) -> Seq<char> {
    API_URL@ + "/v1/budgets/"@ + budget_id
}

/// The address of an account, in the interface for programs or among the
/// pages for people.
pub open spec fn account_address(kind: UrlType, budget_id: Seq<char>, account_id: Seq<char>) -> Seq<
    char,
> {
    match kind {
        UrlType::ApiUrl => budget_address(budget_id) + "/accounts/"@ + account_id,
        UrlType::AppUrl => APP_URL@ + "/"@ + budget_id + "/accounts/"@ + account_id,
    }
}

impl BudgetAccount {
    /// The account `account_id` of the budget `budget_id`.
    pub fn new(budget_id: String, account_id: String) -> (r: BudgetAccount)
        ensures
            r.budget_id == budget_id,
            r.account_id == account_id,
    {
        BudgetAccount { budget_id, account_id }
    }

    /// Where the budget itself is read.
    pub fn budget_uri(&self) -> (r: String)
        ensures
            r@ == budget_address(self.budget_id@),
    {
        let mut uri = String::from_str(API_URL);
        uri.append("/v1/budgets/");
        uri.append(self.budget_id.as_str());
        uri
    }

    /// Where transactions are sent.
    pub fn transactions_uri(&self) -> (r: String)
        ensures
            r@ == budget_address(self.budget_id@) + "/transactions"@,
    {
        let mut uri = self.budget_uri();
        uri.append("/transactions");
        uri
    }

    /// Where the account is read, or shown.
    pub fn account_uri(&self, url_type: UrlType) -> (r: String)
        ensures
            r@ == account_address(url_type, self.budget_id@, self.account_id@),
    {
        let mut uri = match url_type {
            UrlType::ApiUrl => self.budget_uri(),
            UrlType::AppUrl => {
                let mut page = String::from_str(APP_URL);
                page.append("/");
                page.append(self.budget_id.as_str());
                page
            },
        };
        uri.append("/accounts/");
        uri.append(self.account_id.as_str());
        uri
    }

    /// Where a person sees the account.
    pub fn app_account_uri(&self) -> (r: String)
        ensures
            r@ == account_address(UrlType::AppUrl, self.budget_id@, self.account_id@),
    {
        self.account_uri(UrlType::AppUrl)
    }
}

/// What a program sends to be let in with a personal access token.
pub fn bearer(token: &str) -> (r: String)
    ensures
        r@ == "Bearer "@ + token@,
{
    let mut value = String::from_str("Bearer ");
    value.append(token);
    value
}

} // verus!
