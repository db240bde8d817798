use tradier_events::{MsgType, OrderAttribute, OrderType, Rule, RuleType, Strategy, Ticker, Venue};

#[test]
fn model_values_hold_what_they_were_given() {
    let venue = Venue { code: "P".to_string(), name: "NYSE Arca".to_string(), description: "exchange".to_string() };
    let ticker = Ticker { symbol: "SPY".to_string(), venue };
    assert_eq!(ticker.symbol, "SPY");
    assert_eq!(ticker.venue.code, "P");
    let strategy = Strategy {
        recipe: vec![
            Rule { label: "in".to_string(), rule_type: RuleType::EntryRule, description: "enter".to_string() },
            Rule { label: "out".to_string(), rule_type: RuleType::ExitRule, description: "leave".to_string() },
        ],
    };
    assert_eq!(strategy.recipe.len(), 2);
    assert_eq!(strategy.recipe[1].rule_type, RuleType::ExitRule);
    assert_ne!(OrderType::BuyToOpen, OrderType::SellToClose);
    assert_ne!(OrderAttribute::Vwap, OrderAttribute::Twap);
    assert!(matches!(MsgType::Quote, MsgType::Quote));
}
