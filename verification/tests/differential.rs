use matching_engine::csv_codec::format_output_csv;
use matching_engine::{NewOrder, OrderBook, OutputMessage, Side};

/// A resting order of the plain model: arrival number, identifiers, price
/// and what remains.
#[derive(Clone)]
struct Resting {
    arrival: u64,
    user_id: u32,
    user_order_id: u32,
    price: u32,
    remaining: u32,
}

/// A book kept in the plainest way: two unordered lists.
struct PlainBook {
    bids: Vec<Resting>,
    asks: Vec<Resting>,
    reported: (u32, u32, u32, u32),
    arrivals: u64,
}

impl PlainBook {
    fn new() -> Self {
        PlainBook { bids: Vec::new(), asks: Vec::new(), reported: (0, 0, 0, 0), arrivals: 0 }
    }

    fn best(list: &[Resting], highest: bool) -> Option<usize> {
        let mut best: Option<usize> = None;
        for (i, o) in list.iter().enumerate() {
            best = match best {
                None => Some(i),
                Some(b) => {
                    let better = if highest { o.price > list[b].price } else { o.price < list[b].price };
                    let older = o.price == list[b].price && o.arrival < list[b].arrival;
                    if better || older { Some(i) } else { Some(b) }
                }
            };
        }
        best
    }

    fn top(list: &[Resting], highest: bool) -> (u32, u32) {
        match Self::best(list, highest) {
            None => (0, 0),
            Some(b) => {
                let price = list[b].price;
                (price, list.iter().filter(|o| o.price == price).map(|o| o.remaining).sum())
            }
        }
    }

    fn report(&mut self, out: &mut Vec<String>) {
        let bid = Self::top(&self.bids, true);
        let ask = Self::top(&self.asks, false);
        if bid != (self.reported.0, self.reported.1) {
            out.push(if bid.0 == 0 { "B, SYM, B, -, -".to_string() } else { format!("B, SYM, B, {}, {}", bid.0, bid.1) });
        }
        if ask != (self.reported.2, self.reported.3) {
            out.push(if ask.0 == 0 { "B, SYM, S, -, -".to_string() } else { format!("B, SYM, S, {}, {}", ask.0, ask.1) });
        }
        self.reported = (bid.0, bid.1, ask.0, ask.1);
    }

    fn add(&mut self, user_id: u32, price: u32, quantity: u32, side: Side, user_order_id: u32) -> Vec<String> {
        let mut out = vec![format!("A, {}, {}, SYM", user_id, user_order_id)];
        let mut remaining = quantity;
        loop {
            if remaining == 0 {
                break;
            }
            let (opposing, highest) = match side {
                Side::Buy => (&mut self.asks, false),
                Side::Sell => (&mut self.bids, true),
            };
            let Some(b) = Self::best(opposing, highest) else { break };
            let level = opposing[b].price;
            let crosses = price == 0 || match side {
                Side::Buy => price >= level,
                Side::Sell => price <= level,
            };
            if !crosses {
                break;
            }
            let traded = remaining.min(opposing[b].remaining);
            let passive = (opposing[b].user_id, opposing[b].user_order_id);
            let (buy, sell) = match side {
                Side::Buy => ((user_id, user_order_id), passive),
                Side::Sell => (passive, (user_id, user_order_id)),
            };
            out.push(format!("T, SYM, {}, {}, {}, {}, {}, {}", buy.0, buy.1, sell.0, sell.1, level, traded));
            remaining -= traded;
            opposing[b].remaining -= traded;
            if opposing[b].remaining == 0 {
                opposing.remove(b);
            }
        }
        if remaining > 0 && price != 0 {
            self.arrivals += 1;
            let resting = Resting { arrival: self.arrivals, user_id, user_order_id, price, remaining };
            match side {
                Side::Buy => self.bids.push(resting),
                Side::Sell => self.asks.push(resting),
            }
        }
        self.report(&mut out);
        out
    }

    fn first_named(list: &[Resting], user_id: u32, user_order_id: u32) -> Option<usize> {
        let mut found: Option<usize> = None;
        for (i, o) in list.iter().enumerate() {
            if o.user_id != user_id || o.user_order_id != user_order_id {
                continue;
            }
            found = match found {
                None => Some(i),
                Some(f) => {
                    let lower = o.price < list[f].price;
                    let older = o.price == list[f].price && o.arrival < list[f].arrival;
                    if lower || older { Some(i) } else { Some(f) }
                }
            };
        }
        found
    }

    fn cancel(&mut self, user_id: u32, user_order_id: u32) -> Vec<String> {
        let mut out = vec![format!("C, {}, {}, SYM", user_id, user_order_id)];
        let found = if let Some(i) = Self::first_named(&self.bids, user_id, user_order_id) {
            self.bids.remove(i);
            true
        } else if let Some(i) = Self::first_named(&self.asks, user_id, user_order_id) {
            self.asks.remove(i);
            true
        } else {
            false
        };
        if found {
            self.report(&mut out);
        }
        out
    }
}

fn lines(outputs: &[OutputMessage]) -> Vec<String> {
    outputs.iter().map(format_output_csv).collect()
}

fn next(state: &mut u64) -> u32 {
    *state = state.wrapping_mul(6364136223846793005).wrapping_add(1442695040888963407);
    (*state >> 33) as u32
}

fn run(seed: u64, steps: usize, prices: u32, ids: u32) {
    let mut state = seed;
    let mut book = OrderBook::new("SYM");
    let mut plain = PlainBook::new();
    for step in 0..steps {
        let kind = next(&mut state) % 10;
        let user_id = 1 + next(&mut state) % 3;
        let user_order_id = 1 + next(&mut state) % ids;
        if kind < 7 {
            let side = if next(&mut state) % 2 == 0 { Side::Buy } else { Side::Sell };
            let price = if next(&mut state) % 8 == 0 { 0 } else { 100 + next(&mut state) % prices };
            let quantity = 1 + next(&mut state) % 50;
            let msg = NewOrder { user_id, symbol: "SYM".to_string(), price, quantity, side, user_order_id };
            assert!(book.can_accept(&msg));
            let got = lines(&book.add_order(&msg));
            let want = plain.add(user_id, price, quantity, side, user_order_id);
            assert_eq!(got, want, "seed {} step {}", seed, step);
        } else if kind < 9 {
            let got = lines(&book.cancel_order(user_id, user_order_id));
            let want = plain.cancel(user_id, user_order_id);
            assert_eq!(got, want, "seed {} step {}", seed, step);
        } else if next(&mut state) % 20 == 0 {
            book.flush();
            plain = PlainBook::new();
        }
        let top = book.top_of_book_snapshot();
        let bid = PlainBook::top(&plain.bids, true);
        let ask = PlainBook::top(&plain.asks, false);
        assert_eq!((top.bid_price, top.bid_quantity, top.ask_price, top.ask_quantity), (bid.0, bid.1, ask.0, ask.1));
        // At rest the book is neither locked nor crossed.
        if top.bid_price != 0 && top.ask_price != 0 {
            assert!(top.bid_price < top.ask_price, "seed {} step {}", seed, step);
        }
        // A side has a price exactly when it has a quantity.
        assert_eq!(top.bid_price == 0, top.bid_quantity == 0);
        assert_eq!(top.ask_price == 0, top.ask_quantity == 0);
    }
}

#[test]
fn book_agrees_with_a_plain_model_on_narrow_prices() {
    for seed in 0..40 {
        run(seed, 400, 4, 6);
    }
}

#[test]
fn book_agrees_with_a_plain_model_on_wide_prices() {
    for seed in 100..120 {
        run(seed, 600, 40, 200);
    }
}

#[test]
fn book_agrees_with_a_plain_model_with_repeated_identifiers() {
    for seed in 200..230 {
        run(seed, 300, 10, 2);
    }
}
