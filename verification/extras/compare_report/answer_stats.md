
`data.stats` is recorded per answer and deliberately outside the digest: it reports how much each engine had to read to produce the answer, which is the thing they are supposed to differ on, not part of the answer. VictoriaLogs reports no such counter, and its "lines read" cells below say so rather than printing zero.

