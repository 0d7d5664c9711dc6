use genetic_string::evolution::{breed_from_pairs, Evolution, Pairing, Report, Status, MILLION};
use genetic_string::fitness::{hamming, Fitness, TargetMatch};
use genetic_string::individual::Individual;
use genetic_string::population::{crossover_at, Population};

fn chars(s: &str) -> Vec<char> {
    s.chars().collect()
}

fn text(c: &[char]) -> String {
    c.iter().collect()
}

fn printable(c: char) -> bool {
    (32..=126).contains(&(c as u32))
}

fn run(evo: &mut Evolution) -> Report {
    loop {
        let r = evo.advance();
        if r.status != Status::Continued {
            return r;
        }
    }
}

#[test]
fn hamming_counts_differing_positions() {
    assert_eq!(hamming(&chars("karolin"), &chars("kathrin")), 3);
    assert_eq!(hamming(&chars("abcd"), &chars("abcd")), 0);
    assert_eq!(hamming(&chars("abcd"), &chars("wxyz")), 4);
    assert_eq!(hamming(&chars(""), &chars("")), 0);
}

#[test]
fn hamming_is_symmetric_and_zero_on_self() {
    let a = chars("Happy Birthday, Old Fox!");
    let b = chars("Happy birthday, old fix?");
    assert_eq!(hamming(&a, &b), hamming(&b, &a));
    assert_eq!(hamming(&a, &b), 5);
    assert_eq!(hamming(&a, &a), 0);
}

#[test]
fn target_match_scores_length_minus_distance() {
    let target = chars("Happy");
    let f = TargetMatch::new(target.clone());
    assert_eq!(f.score(&Individual::new(chars("Happy"))), 5);
    assert_eq!(f.score(&Individual::new(chars("Hippo"))), 3);
    assert_eq!(f.score(&Individual::new(chars("xxxxx"))), 0);
    let c = chars("Hxpxy");
    assert_eq!(f.score(&Individual::new(c.clone())), 5 - hamming(&target, &c));
}

#[test]
fn new_wraps_chromosome_unevaluated() {
    let x = Individual::new(chars("abc"));
    assert_eq!(x.chromosome, chars("abc"));
    assert_eq!(x.fitness, 0);
}

#[test]
fn new_rand_is_printable_of_given_length() {
    for n in [1usize, 2, 24, 200] {
        let x = Individual::new_rand(n);
        assert_eq!(x.chromosome.len(), n);
        assert!(x.chromosome.iter().all(|c| printable(*c)));
        assert_eq!(x.fitness, 0);
    }
    assert_eq!(Individual::new_rand(0).chromosome.len(), 0);
}

#[test]
fn mutate_at_replaces_one_position() {
    let mut x = Individual::new(chars("abcd"));
    x.fitness = 7;
    x.mutate_at(2, 'Z');
    assert_eq!(x.chromosome, chars("abZd"));
    assert_eq!(x.fitness, 7);
}

#[test]
fn mutate_changes_at_most_one_position() {
    for _ in 0..200 {
        let before = chars("Happy Birthday, Old Fox!");
        let mut x = Individual::new(before.clone());
        x.fitness = 3;
        x.mutate();
        assert_eq!(x.chromosome.len(), before.len());
        assert_eq!(x.fitness, 3);
        let changed: Vec<usize> =
            (0..before.len()).filter(|i| x.chromosome[*i] != before[*i]).collect();
        assert!(changed.len() <= 1);
        for i in changed {
            assert!(printable(x.chromosome[i]));
        }
    }
}

#[test]
fn mutate_sometimes_changes_a_position() {
    let before = chars("\u{7f}\u{7f}\u{7f}");
    let mut x = Individual::new(before.clone());
    x.mutate();
    assert_ne!(x.chromosome, before);
}

#[test]
fn crossover_at_splits_at_point() {
    let a = Individual::new(chars("abcdef"));
    let b = Individual::new(chars("UVWXYZ"));
    let (da, db) = crossover_at(&a, &b, 2);
    assert_eq!(text(&da.chromosome), "UVcdef");
    assert_eq!(text(&db.chromosome), "abWXYZ");
    assert_eq!(da.fitness, 0);
    assert_eq!(db.fitness, 0);
    let (ea, eb) = crossover_at(&a, &b, 4);
    assert_eq!(text(&ea.chromosome), "UVWXef");
    assert_eq!(text(&eb.chromosome), "abcdYZ");
}

#[test]
fn crossover_point_is_interior() {
    let target = chars("abcdef");
    let f = TargetMatch::new(target);
    let pop = Population::new(2, 6, &f);
    let a = Individual::new(chars("abcdef"));
    let b = Individual::new(chars("UVWXYZ"));
    for _ in 0..200 {
        let (da, db) = pop.crossover(&a, &b);
        assert_eq!(da.chromosome.len(), 6);
        assert_eq!(db.chromosome.len(), 6);
        let p = (1..=4)
            .find(|p| {
                da.chromosome[..*p] == b.chromosome[..*p]
                    && da.chromosome[*p..] == a.chromosome[*p..]
                    && db.chromosome[..*p] == a.chromosome[..*p]
                    && db.chromosome[*p..] == b.chromosome[*p..]
            });
        assert!(p.is_some());
    }
}

#[test]
fn crossover_of_identical_parents_is_identity() {
    let f = TargetMatch::new(chars("AAAA"));
    let pop = Population::new(2, 4, &f);
    let a = Individual::new(chars("AAAA"));
    for _ in 0..200 {
        let (da, db) = pop.crossover(&a, &a.clone());
        assert_eq!(text(&da.chromosome), "AAAA");
        assert_eq!(text(&db.chromosome), "AAAA");
    }
}

#[test]
fn population_new_builds_random_individuals() {
    let f = TargetMatch::new(chars("Happy"));
    let pop = Population::new(10, 5, &f);
    assert_eq!(pop.individuals.len(), 10);
    for x in &pop.individuals {
        assert_eq!(x.chromosome.len(), 5);
        assert!(x.chromosome.iter().all(|c| printable(*c)));
        assert_eq!(x.fitness, 0);
    }
}

#[test]
fn fitness_sorts_descending() {
    let f = TargetMatch::new(chars("Happy Birthday"));
    let mut pop = Population::new(50, 14, &f);
    pop.fitness();
    assert_eq!(pop.individuals.len(), 50);
    for w in pop.individuals.windows(2) {
        assert!(w[0].fitness >= w[1].fitness);
    }
    for x in &pop.individuals {
        assert_eq!(x.fitness, 14 - hamming(&f.target, &x.chromosome));
        assert!(pop.individuals[0].fitness >= x.fitness);
    }
}

#[test]
fn fitness_is_stable_and_exact() {
    let f = TargetMatch::new(chars("abcd"));
    let names = ["xxxx", "abxx", "wwww", "abcd", "axxx", "abyy", "zzzz"];
    let mut pop = Population {
        individuals: names.iter().map(|s| Individual::new(chars(s))).collect(),
        f: &f,
    };
    pop.fitness();
    let got: Vec<String> = pop.individuals.iter().map(|x| text(&x.chromosome)).collect();
    assert_eq!(got, vec!["abcd", "abxx", "abyy", "axxx", "xxxx", "wwww", "zzzz"]);
    let scores: Vec<u32> = pop.individuals.iter().map(|x| x.fitness).collect();
    assert_eq!(scores, vec![4, 2, 2, 1, 0, 0, 0]);
}

#[test]
fn scenario_two_letter_target_best_in_range() {
    let f = TargetMatch::new(chars("AB"));
    let mut pop = Population::new(4, 2, &f);
    pop.fitness();
    assert_eq!(pop.individuals.len(), 4);
    let best = pop.individuals[0].fitness;
    assert!(best <= 2);
    assert!(pop.individuals.iter().all(|x| x.fitness <= best));
}

#[test]
fn scenario_solved_generation_stops() {
    let f = TargetMatch::new(chars("abc"));
    let pop = Population {
        individuals: vec![
            Individual::new(chars("xyz")),
            Individual::new(chars("abc")),
            Individual::new(chars("abz")),
        ],
        f: &f,
    };
    let mut evo = Evolution::from_population(pop, 10, 0);
    let r = evo.advance();
    assert_eq!(r.status, Status::Solved);
    assert_eq!(r.generation, 0);
    assert_eq!(text(&r.best), "abc");
    assert_eq!(r.fitness, 3);
    assert_eq!(evo.generation, 0);
    let again = run(&mut evo);
    assert_eq!(again.status, Status::Solved);
    assert_eq!(again.generation, 0);
    assert_eq!(evo.generation, 0);
}

#[test]
fn scenario_never_mutate_keeps_identical_parents() {
    let f = TargetMatch::new(chars("BBBB"));
    let pop = Population {
        individuals: (0..6).map(|_| Individual::new(chars("AAAA"))).collect(),
        f: &f,
    };
    let mut evo = Evolution::from_population(pop, 5, MILLION);
    for g in 0..5 {
        let r = evo.advance();
        assert_eq!(r.status, Status::Continued);
        assert_eq!(r.generation, g);
        assert_eq!(evo.population.individuals.len(), 6);
        for x in &evo.population.individuals {
            assert_eq!(text(&x.chromosome), "AAAA");
            assert_eq!(x.fitness, 0);
        }
    }
    let r = evo.advance();
    assert_eq!(r.status, Status::Exhausted);
    assert_eq!(r.generation, 5);
}

#[test]
fn scenario_zero_generations_exhausts_at_once() {
    let f = TargetMatch::new(chars("Happy Birthday, Old Fox!"));
    let mut evo = Evolution::new(&f, 20, 0, 180_000);
    let initial_best = evo.population.individuals[0].clone();
    let r = run(&mut evo);
    assert_eq!(r.status, Status::Exhausted);
    assert_eq!(r.generation, 0);
    assert_eq!(r.best, initial_best.chromosome);
    assert_eq!(r.fitness, initial_best.fitness);
    assert_eq!(evo.generation, 0);
    assert_eq!(evo.population.individuals[0], initial_best);
}

#[test]
fn odd_population_keeps_its_size() {
    let f = TargetMatch::new(chars("abcde"));
    let mut evo = Evolution::new(&f, 7, 3, 180_000);
    let r = run(&mut evo);
    assert_ne!(r.status, Status::Continued);
    assert_eq!(evo.population.individuals.len(), 7);
    for x in &evo.population.individuals {
        assert_eq!(x.chromosome.len(), 5);
        assert_eq!(x.fitness, 5 - hamming(&f.target, &x.chromosome));
    }
}

#[test]
fn run_reaches_a_short_target() {
    let f = TargetMatch::new(chars("abc"));
    let mut evo = Evolution::new(&f, 200, 5000, 0);
    let r = run(&mut evo);
    if r.status == Status::Solved {
        assert_eq!(text(&r.best), "abc");
        assert_eq!(r.fitness, 3);
        assert_eq!(r.generation, evo.generation);
    } else {
        assert_eq!(r.status, Status::Exhausted);
        assert_eq!(evo.generation, 5000);
    }
}

#[test]
fn new_rand_draws_varied_characters() {
    let x = Individual::new_rand(200);
    let first = x.chromosome[0];
    assert!(x.chromosome.iter().any(|c| *c != first));
}

#[test]
fn breed_from_pairs_is_exact() {
    let pop = vec![Individual::new(chars("abcdef")), Individual::new(chars("UVWXYZ"))];
    let pairings = vec![
        Pairing { first: 0, second: 1, point: 2, mutation_a: None, mutation_b: Some((5, '!')) },
        Pairing { first: 1, second: 1, point: 4, mutation_a: Some((0, '#')), mutation_b: None },
    ];
    let bred = breed_from_pairs(&pop, &pairings, 3);
    let got: Vec<String> = bred.iter().map(|x| text(&x.chromosome)).collect();
    assert_eq!(got, vec!["UVcdef", "abWXY!", "#VWXYZ"]);
    assert!(bred.iter().all(|x| x.fitness == 0));
    let even = breed_from_pairs(&pop, &pairings, 4);
    assert_eq!(text(&even[3].chromosome), "UVWXYZ");
    assert_eq!(breed_from_pairs(&pop, &Vec::new(), 0).len(), 0);
}

#[test]
fn advance_without_mutation_breeds_crossover_children() {
    let f = TargetMatch::new(chars("zzzz"));
    let parents = [chars("abcd"), chars("wxyz")];
    let pop = Population {
        individuals: vec![Individual::new(parents[0].clone()), Individual::new(parents[1].clone())],
        f: &f,
    };
    let mut evo = Evolution::from_population(pop, 1, MILLION);
    let r = evo.advance();
    assert_eq!(r.status, Status::Continued);
    assert_eq!(evo.generation, 1);
    assert_eq!(evo.population.individuals.len(), 2);
    for x in &evo.population.individuals {
        let ok = (1..=2).any(|p| {
            parents.iter().any(|a| {
                parents.iter().any(|b| {
                    let c: Vec<char> = a[..p].iter().chain(b[p..].iter()).cloned().collect();
                    c == x.chromosome
                })
            })
        });
        assert!(ok);
        assert_eq!(x.fitness, 4 - hamming(&f.target, &x.chromosome));
    }
}
