use pechincha::decimal::Decimal;
use pechincha::scoring::{
    normalize, price_cluster_scores, score_product, string_similarity_score,
    title_structure_score, tokens_match, Ratio, RELEVANT_THRESHOLD,
};

fn fraction(score: u64) -> f64 {
    score as f64 / 1e18
}

fn quintillionths(x: f64) -> u64 {
    (x * 1e18).round() as u64
}

fn fractions(scores: &[u64]) -> Vec<f64> {
    scores.iter().map(|&s| fraction(s)).collect()
}

fn reais(prices: &[i64]) -> Vec<Decimal> {
    prices.iter().map(|&p| Decimal::new(p, 0)).collect()
}

#[test]
fn product_title_scores_high() {
    let score = fraction(title_structure_score(
        "Sennheiser HD 600 - Audiophile Open-Back",
        "Sennheiser HD 600",
    ));
    assert!(score > 0.8, "Product title should score high: {score}");
}

#[test]
fn accessory_title_scores_low() {
    let score = fraction(title_structure_score(
        "Almofadas de Gel Refrescante Para Sennheiser HD 600",
        "Sennheiser HD 600",
    ));
    assert!(score < 0.5, "Accessory title should score low: {score}");
}

#[test]
fn cable_accessory_scores_low() {
    let score = fraction(title_structure_score(
        "Cabo balanceado XLR 4 pinos para HD-6XX, HD 600, HD 650",
        "Sennheiser HD 600",
    ));
    assert!(score < 0.4, "Cable accessory should score low: {score}");
}

#[test]
fn exact_product_scores_highest() {
    let s1 = score_product(
        "Dyson V15 Detect Cordless Vacuum",
        "Dyson V15 Detect",
        quintillionths(0.5),
        Ratio::new(quintillionths(1.0) as u128),
    );
    let s2 = score_product(
        "Filtro HEPA para Dyson V15 Detect V11 V10",
        "Dyson V15 Detect",
        quintillionths(0.5),
        Ratio::new(quintillionths(1.0) as u128),
    );
    assert!(
        s1.total > s2.total,
        "Product ({:.2}) should outscore accessory ({:.2})",
        fraction(s1.total),
        fraction(s2.total)
    );
}

#[test]
fn similarity_prefers_focused_title() {
    let s1 = fraction(string_similarity_score("Sennheiser HD 600", "Sennheiser HD 600"));
    let s2 = fraction(string_similarity_score(
        "Replacement ear pads cushion compatible with Sennheiser HD 600 HD 650 HD 660S",
        "Sennheiser HD 600",
    ));
    assert!(s1 > s2, "Focused title ({s1:.2}) > long accessory title ({s2:.2})");
}

#[test]
fn tokens_match_basic() {
    assert!(tokens_match("Sennheiser HD 600 Open Back", "Sennheiser HD 600"));
    assert!(!tokens_match("Sennheiser HD 650 Open Back", "Sennheiser HD 600"));
    assert!(tokens_match("Dyson V15 Detect Plus", "Dyson V15 Detect"));
}

#[test]
fn price_clustering_separates_accessories() {
    let prices = reais(&[50, 80, 120, 2000, 2200, 2500, 2600]);
    // Without MSRP: gap detection
    let (scores, gap) = price_cluster_scores(&prices, None);
    let scores = fractions(&scores);
    let gap_ratio = gap.capped() as f64 / 1e18;
    assert!(scores[0] < scores[4], "R$50 ({:.2}) < R$2200 ({:.2})", scores[0], scores[4]);
    assert!(scores[2] < scores[3], "R$120 ({:.2}) < R$2000 ({:.2})", scores[2], scores[3]);
    assert!(gap_ratio > 3.0, "Gap ratio should be > 3.0: {gap_ratio:.2}");
}

#[test]
fn brand_before_marker_still_penalized() {
    // Accessory where brand "Dreame" appears before "para" but model "L50 Ultra" after
    let score = fraction(title_structure_score(
        "Escova Original Dreame DuoBrush para Aspiradores Robot L50 Ultra",
        "Dreame L50 Ultra",
    ));
    assert!(score < 0.5, "Brand-before-marker accessory should score low: {score}");
}

#[test]
fn price_veto_kills_cheap_accessory_with_good_title() {
    // Accessory at 0.5% of MSRP with great title: cluster=0.0 should veto
    let s = score_product(
        "Escova Original Dreame DuoBrush para Aspiradores Robot L50 Ultra",
        "Dreame L50 Ultra",
        quintillionths(0.0), // cluster: <15% of MSRP
        Ratio::new(quintillionths(5.0) as u128), // clear bimodal gap
    );
    assert!(
        s.total < RELEVANT_THRESHOLD,
        "Cheap accessory (cluster=0) must be below threshold: {:.2}",
        fraction(s.total)
    );
}

#[test]
fn price_veto_passes_real_product() {
    // Real product at ~60% of MSRP with good title
    let s = score_product(
        "DREAME L50 Ultra Robot Vacuum and Mop White",
        "Dreame L50 Ultra",
        quintillionths(0.88), // cluster: ~60% of MSRP
        Ratio::new(quintillionths(5.0) as u128),
    );
    assert!(
        s.total >= RELEVANT_THRESHOLD,
        "Real product should pass threshold: {:.2}",
        fraction(s.total)
    );
}

#[test]
fn branded_cable_at_40pct_msrp_filtered() {
    // Cable at ~40% of MSRP with brand at title start.
    let cluster_at_40pct = 0.24; // (0.40 - 0.10) / 0.50 * 0.40
    let s = score_product(
        "SENNHEISER 4 pinos XLR cabo balanceado para HD-6XX, HD 600, HD 650",
        "Sennheiser HD 600",
        quintillionths(cluster_at_40pct),
        Ratio::new(quintillionths(5.0) as u128),
    );
    assert!(
        s.total < RELEVANT_THRESHOLD,
        "Cable at 40% MSRP should be filtered: {:.3} (struct={:.2}, cluster={:.2}, sim={:.2})",
        fraction(s.total),
        fraction(s.title_structure),
        fraction(s.price_cluster),
        fraction(s.string_similarity)
    );
}

#[test]
fn gap_detection_multi_cluster() {
    // Three clusters: cheap accessories (50-600), mid accessories (1000-1500),
    // actual products (4000-10000). The split should happen at the highest
    // gap (1500 to 4000), not between the two accessory sub-clusters.
    let prices = reais(&[50, 100, 200, 400, 600, 1000, 1200, 1500, 4000, 8000, 9000, 10000]);
    let (scores, gap) = price_cluster_scores(&prices, None);
    let scores = fractions(&scores);
    let gap_ratio = gap.capped() as f64 / 1e18;
    // Gap at 1500 to 4000 = 2.67x
    assert!(gap_ratio > 2.0, "Should detect significant gap: {gap_ratio:.2}");
    // Products (4000+) should score much higher than accessories (50-1500)
    assert!(scores[8] >= 0.5, "R$4000 should score high: {:.2}", scores[8]);
    assert!(scores[0] < 0.35, "R$50 should score low: {:.2}", scores[0]);
    assert!(scores[5] < 0.35, "R$1000 should score low: {:.2}", scores[5]);
    assert!(scores[7] < 0.35, "R$1500 should score low: {:.2}", scores[7]);
}

#[test]
fn msrp_anchored_kills_accessories() {
    let prices = reais(&[30, 50, 100, 250, 1000, 2000, 2500, 3000]);
    // MSRP = R$ 2500 (e.g. Sennheiser HD 600)
    let (scores, _) = price_cluster_scores(&prices, Some(Decimal::new(2500, 0)));
    let scores = fractions(&scores);
    // R$30 is 1.2% of MSRP: should score ~0
    assert!(scores[0] < 0.05, "R$30 at MSRP R$2500 should be ~0: {:.2}", scores[0]);
    // R$100 is 4% of MSRP: should score very low
    assert!(scores[2] < 0.05, "R$100 at MSRP R$2500 should be ~0: {:.2}", scores[2]);
    // R$250 is 10% of MSRP: right at the ramp start
    assert!(scores[3] < 0.05, "R$250 at MSRP R$2500 should be ~0: {:.2}", scores[3]);
    // R$1000 is 40% of MSRP: on the ramp, should be moderate (not high)
    assert!(scores[4] < 0.30, "R$1000 at MSRP R$2500 should be moderate: {:.2}", scores[4]);
    assert!(scores[4] > 0.10, "R$1000 at MSRP R$2500 shouldn't be zero: {:.2}", scores[4]);
    // R$2500 is 100% of MSRP: should score high
    assert!(scores[6] > 0.8, "R$2500 at MSRP R$2500 should be high: {:.2}", scores[6]);
    // Smooth ramp: prices on the ramp should score progressively higher
    assert!(scores[3] < scores[4], "R$250 < R$1000 in score");
    assert!(scores[4] < scores[5], "R$1000 < R$2000 in score");
}

#[test]
fn texts_are_normalized_once_for_all() {
    let plain = normalize("Aspirador-de_Pó  SÔNICO");
    assert_eq!(plain, "aspirador de po sonico");
    assert_eq!(normalize(&plain), plain);
    assert_eq!(normalize("  ÁÀÃÂ-ÉÊ_Í ÓÔÕÚÜÇ "), "aaaa ee i ooouuc");
    assert_eq!(normalize(" - "), "");
    assert_eq!(normalize("ΟΔΟΣ Σ"), "οδος σ");
}

#[test]
fn searches_split_into_their_words() {
    let title = "Sennheiser HD-600 Áudio";
    for (a, b) in [("hd", "600"), ("audio", "hd600"), ("hd", "650"), ("650", "audio")] {
        let both = tokens_match(title, a) && tokens_match(title, b);
        assert_eq!(tokens_match(title, &format!("{a} {b}")), both);
        assert_eq!(tokens_match(title, &format!("{b} {a}")), both);
    }
    assert!(tokens_match(title, "hd600"));
    assert!(tokens_match(&format!("{title} com cabo"), "hd600"));
    assert_eq!(
        tokens_match(&normalize(title), &normalize("ÁUDIO HD_600")),
        tokens_match(title, "ÁUDIO HD_600")
    );
}

#[test]
fn scores_go_with_their_prices_in_any_order() {
    let prices = reais(&[50, 2200, 120, 2000, 80, 2500, 2600, 0]);
    let order = [7, 3, 0, 6, 2, 5, 1, 4];
    let shuffled: Vec<Decimal> = order.iter().map(|&i| prices[i]).collect();
    for msrp in [None, Some(Decimal::new(2400, 0))] {
        let (scores, gap) = price_cluster_scores(&prices, msrp);
        let (again, same) = price_cluster_scores(&shuffled, msrp);
        assert_eq!(gap.parts(), same.parts());
        assert_eq!(again, order.iter().map(|&i| scores[i]).collect::<Vec<u64>>());
    }
}

#[test]
fn without_prices_every_score_is_a_half() {
    let (scores, gap) = price_cluster_scores(&reais(&[0, -5, 0, 0, 0]), None);
    assert_eq!(fractions(&scores), vec![0.5; 5]);
    assert_eq!(gap.capped(), 1_000_000_000_000_000_000);
}

#[test]
fn wide_gaps_are_told_apart() {
    let prices = vec![
        Decimal::new(1, 28),
        Decimal::new(1, 0),
        Decimal::new(2, 0),
        Decimal::new(3, 0),
    ];
    let (_, gap) = price_cluster_scores(&prices, None);
    // 1e28 is 1e46 quintillionths, and so a billion times 1e37
    assert_eq!(gap.parts(), (1_000_000_000, 0));
    assert_eq!(gap.capped(), 10_000_000_000_000_000_000_000_000_000_000_000_000);
    let largest = Decimal::parse("79228162514264337593543950335").unwrap();
    let prices = vec![Decimal::new(1, 28), Decimal::new(2, 28), Decimal::new(1, 0), largest];
    let (scores, gap) = price_cluster_scores(&prices, None);
    // the second gap is 5e27, the third one 7.9e28
    assert_eq!(gap.parts().0, 7_922_816_251);
    assert!(scores[2] < scores[3]);
    assert!(gap.exceeds(&Ratio::new(u128::MAX)));
    assert!(!gap.exceeds(&gap));
}
