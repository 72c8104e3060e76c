//! Detection, ranking and order construction for riskless option spreads.
//!
//! One snapshot of an option chain is indexed, scanned by three independent
//! strategies (calendar, butterfly and box spreads), the candidates are ranked
//! by a liquidity- and time-weighted score, an allocation is sized from the
//! available capital, and each selected candidate is turned into a multi-leg
//! order request.
//!
//! Prices, sizes and capital are exact decimal amounts, whole numbers of
//! ten-thousandths (`amount`). A strike is the bit pattern of the number that
//! was received, matched exactly and ordered as numbers are (`strike`). Dates
//! are six-digit codes, `YYMMDD` (`dates`); the calendar itself is `chrono`'s.
//!
//! Every function states what it returns over these values, and every scan is
//! a function of the snapshot alone: `scan` says what a scan yields,
//! `calendar`, `butterfly` and `boxspread` say which candidates there are and
//! what becomes of each, `rank` orders the contenders, `sizing` turns capital
//! into counts, and `orders` writes the order requests.
pub mod amount;
pub mod strike;
pub mod dates;
pub mod chain;
pub mod contender;
pub mod scan;
pub mod calendar;
pub mod butterfly;
pub mod boxspread;
pub mod sizing;
pub mod rank;
pub mod orders;
